//! How materials, shapes and tilings are packed for the shaders: in lanes of four
//! numbers. Numbers are held by their bits, which packing does not change.

use vstd::prelude::*;

verus! {

/// The bits of the numbers that packing puts in by itself: one, two, sixteen, and
/// a place that is out of reach.
pub const ONE: u32 = 0x3f80_0000;

pub const TWO: u32 = 0x4000_0000;

pub const SIXTEEN: u32 = 0x4180_0000;

pub const FAR_AWAY: u32 = 0x4b18_9680;

/// What a material does with light.
#[derive(Clone, Copy, Debug, PartialEq, Eq)]
pub struct Surface {
    pub color: [u32; 3],
    pub emissive: [u32; 3],
    pub emissive_strength: u32,
    pub specular: [u32; 3],
    pub specular_strength: u32,
    pub shininess: u32,
    pub rim_strength: u32,
    pub unlit: bool,
    pub ambient: u32,
    pub rim: [u32; 3],
}

/// The lanes of a material.
#[derive(Clone, Copy, Debug, PartialEq, Eq)]
pub struct SurfaceLanes {
    pub tint: [u32; 4],
    pub emissive: [u32; 4],
    pub specular: [u32; 4],
    pub params: [u32; 4],
    pub rim: [u32; 4],
}

/// Three numbers and a fourth.
pub open spec fn four(v: Seq<u32>, last: u32) -> Seq<u32> {
    seq![v[0], v[1], v[2], last]
}

/// The bits of yes or no.
pub open spec fn flag(on: bool) -> u32 {
    if on {
        ONE
    } else {
        0
    }
}

/// Are these the lanes of a material?
pub open spec fn is_packed(m: Surface, l: SurfaceLanes) -> bool {
    &&& l.tint@ == four(m.color@, 0)
    &&& l.emissive@ == four(m.emissive@, m.emissive_strength)
    &&& l.specular@ == four(m.specular@, m.specular_strength)
    &&& l.params@ == seq![m.shininess, m.rim_strength, flag(m.unlit), m.ambient]
    &&& l.rim@ == four(m.rim@, 0)
}

/// Are these the lanes of a place that holds no material?
pub open spec fn is_plain(l: SurfaceLanes) -> bool {
    &&& l.tint@ == seq![ONE, ONE, ONE, 0u32]
    &&& l.emissive@ == seq![0u32, 0u32, 0u32, 0u32]
    &&& l.specular@ == seq![ONE, ONE, ONE, 0u32]
    &&& l.params@ == seq![SIXTEEN, 0u32, 0u32, ONE]
    &&& l.rim@ == seq![0u32, 0u32, 0u32, 0u32]
}

/// Three numbers and a fourth.
fn with_fourth(v: &[u32; 3], last: u32) -> (out: [u32; 4])
    ensures
        out@ == four(v@, last),
{
    let out: [u32; 4] = [v[0], v[1], v[2], last];
    assert(out@ =~= four(v@, last));
    out
}

/// The lanes of a material.
pub fn surface_lanes(m: &Surface) -> (out: SurfaceLanes)
    ensures
        is_packed(*m, out),
{
    let lit: u32 = if m.unlit {
        ONE
    } else {
        0
    };
    let params: [u32; 4] = [m.shininess, m.rim_strength, lit, m.ambient];
    assert(params@ =~= seq![m.shininess, m.rim_strength, flag(m.unlit), m.ambient]);
    SurfaceLanes {
        tint: with_fourth(&m.color, 0),
        emissive: with_fourth(&m.emissive, m.emissive_strength),
        specular: with_fourth(&m.specular, m.specular_strength),
        params,
        rim: with_fourth(&m.rim, 0),
    }
}

/// The lanes of a place that holds no material.
fn plain_lanes() -> (out: SurfaceLanes)
    ensures
        is_plain(out),
{
    let white: [u32; 4] = [ONE, ONE, ONE, 0];
    let none: [u32; 4] = [0, 0, 0, 0];
    let params: [u32; 4] = [SIXTEEN, 0, 0, ONE];
    assert(white@ =~= seq![ONE, ONE, ONE, 0u32]);
    assert(none@ =~= seq![0u32, 0u32, 0u32, 0u32]);
    assert(params@ =~= seq![SIXTEEN, 0u32, 0u32, ONE]);
    SurfaceLanes { tint: white, emissive: none, specular: white, params, rim: none }
}

/// Packing loses nothing: two materials with the same lanes are the same material.
pub proof fn law_packing_loses_nothing(m: Surface, n: Surface, l: SurfaceLanes)
    requires
        is_packed(m, l),
        is_packed(n, l),
    ensures
        m.color@ == n.color@,
        m.emissive@ == n.emissive@ && m.emissive_strength == n.emissive_strength,
        m.specular@ == n.specular@ && m.specular_strength == n.specular_strength,
        m.shininess == n.shininess && m.rim_strength == n.rim_strength,
        m.unlit == n.unlit && m.ambient == n.ambient,
        m.rim@ == n.rim@,
{
    assert forall|i: int| 0 <= i < 3 implies m.color@[i] == n.color@[i] && m.emissive@[i]
        == n.emissive@[i] && m.specular@[i] == n.specular@[i] && m.rim@[i] == n.rim@[i] by {
        assert(four(m.color@, 0)[i] == l.tint@[i] && four(n.color@, 0)[i] == l.tint@[i]);
        assert(four(m.emissive@, m.emissive_strength)[i] == l.emissive@[i]);
        assert(four(n.emissive@, n.emissive_strength)[i] == l.emissive@[i]);
        assert(four(m.specular@, m.specular_strength)[i] == l.specular@[i]);
        assert(four(n.specular@, n.specular_strength)[i] == l.specular@[i]);
        assert(four(m.rim@, 0)[i] == l.rim@[i] && four(n.rim@, 0)[i] == l.rim@[i]);
    }
    assert(m.color@ =~= n.color@);
    assert(m.emissive@ =~= n.emissive@);
    assert(m.specular@ =~= n.specular@);
    assert(m.rim@ =~= n.rim@);
    assert(l.emissive@[3] == m.emissive_strength && l.emissive@[3] == n.emissive_strength);
    assert(l.specular@[3] == m.specular_strength && l.specular@[3] == n.specular_strength);
    assert(l.params@[0] == m.shininess && l.params@[0] == n.shininess);
    assert(l.params@[1] == m.rim_strength && l.params@[1] == n.rim_strength);
    assert(l.params@[2] == flag(m.unlit) && l.params@[2] == flag(n.unlit));
    assert(l.params@[3] == m.ambient && l.params@[3] == n.ambient);
}

/// Each part of a material is in its own lane, its colours in the first three numbers and what
/// goes with them in the fourth.
pub proof fn law_each_part_has_its_lane(m: Surface, l: SurfaceLanes, i: int)
    requires
        is_packed(m, l),
        0 <= i < 3,
    ensures
        l.tint@[i] == m.color@[i],
        l.emissive@[i] == m.emissive@[i] && l.emissive@[3] == m.emissive_strength,
        l.specular@[i] == m.specular@[i] && l.specular@[3] == m.specular_strength,
        l.rim@[i] == m.rim@[i],
        l.params@[0] == m.shininess && l.params@[1] == m.rim_strength,
        l.params@[2] != 0 <==> m.unlit,
        l.params@[3] == m.ambient,
{
}

/// A place that holds no material is packed as a white one that does not shine by itself, is
/// lit, and takes all ambient light.
pub proof fn law_no_material_is_plain_white(m: Surface, l: SurfaceLanes)
    requires
        is_packed(m, l),
        is_plain(l),
    ensures
        forall|i: int| 0 <= i < 3 ==> #[trigger] m.color@[i] == ONE,
        forall|i: int| 0 <= i < 3 ==> #[trigger] m.emissive@[i] == 0,
        forall|i: int| 0 <= i < 3 ==> #[trigger] m.specular@[i] == ONE,
        forall|i: int| 0 <= i < 3 ==> #[trigger] m.rim@[i] == 0,
        m.emissive_strength == 0 && m.specular_strength == 0 && m.rim_strength == 0,
        !m.unlit && m.ambient == ONE && m.shininess == SIXTEEN,
{
    assert forall|i: int| 0 <= i < 3 implies #[trigger] m.color@[i] == ONE by {
        law_each_part_has_its_lane(m, l, i);
    }
    assert forall|i: int| 0 <= i < 3 implies #[trigger] m.emissive@[i] == 0 by {
        law_each_part_has_its_lane(m, l, i);
    }
    assert forall|i: int| 0 <= i < 3 implies #[trigger] m.specular@[i] == ONE by {
        law_each_part_has_its_lane(m, l, i);
    }
    assert forall|i: int| 0 <= i < 3 implies #[trigger] m.rim@[i] == 0 by {
        law_each_part_has_its_lane(m, l, i);
    }
    law_each_part_has_its_lane(m, l, 0);
}

// ---- blobs -----------------------------------------------------------------

/// How many blobs a frame is shaded with.
pub const BLOBS: usize = 16;

/// The lanes of the blobs of a frame: of as many as there is room for, and plain
/// ones behind them.
pub fn blob_mat_arrays(set: &Vec<Surface>) -> (out: Vec<SurfaceLanes>)
    ensures
        out@.len() == BLOBS,
        forall|i: int|
            0 <= i < BLOBS ==> if i < set@.len() {
                is_packed(set@[i], #[trigger] out@[i])
            } else {
                is_plain(out@[i])
            },
{
    let mut out: Vec<SurfaceLanes> = Vec::new();
    let mut i: usize = 0;
    while i < BLOBS
        invariant
            i <= BLOBS,
            out@.len() == i,
            forall|j: int|
                0 <= j < i ==> if j < set@.len() {
                    is_packed(set@[j], #[trigger] out@[j])
                } else {
                    is_plain(out@[j])
                },
        decreases BLOBS - i,
    {
        if i < set.len() {
            out.push(surface_lanes(&set[i]));
        } else {
            out.push(plain_lanes());
        }
        i += 1;
    }
    out
}

// ---- shapes of the field ---------------------------------------------------

/// How many knobs of a shape its shader reads.
pub const SHAPE_KNOBS: usize = 16;

/// Where a shape stands: relative to the camera and how large, how it is turned,
/// and the radius that it stays within.
#[derive(Clone, Copy, Debug, PartialEq, Eq)]
pub struct ShapePlace {
    pub position: [u32; 3],
    pub scale: u32,
    pub rotation: [u32; 4],
    pub bound: u32,
}

/// A knob of a shape: its value from the start, and what the material says.
#[derive(Clone, Copy, Debug, PartialEq, Eq)]
pub struct ShapeKnob {
    pub default: [u32; 4],
    pub set: Option<[u32; 4]>,
}

/// What is written for a shape.
pub enum ShapeWrite {
    /// It is put where nothing can meet it.
    Parked { pos: [u32; 4], aux: [u32; 4] },
    /// It is put where it stands. Without a material, how it looks stays as it
    /// was written before.
    Live {
        pos: [u32; 4],
        rot: [u32; 4],
        aux: [u32; 4],
        knobs: Vec<[u32; 4]>,
        surface: Option<SurfaceLanes>,
    },
}

/// The value of a knob.
pub open spec fn knob_value(k: ShapeKnob) -> [u32; 4] {
    match k.set {
        Some(v) => v,
        None => k.default,
    }
}

/// The values of the knobs that are written: those of the first ones.
pub open spec fn knob_values(knobs: Seq<ShapeKnob>) -> Seq<[u32; 4]> {
    let n: int = if knobs.len() < SHAPE_KNOBS {
        knobs.len() as int
    } else {
        SHAPE_KNOBS as int
    };
    knobs.take(n).map_values(|k: ShapeKnob| knob_value(k))
}

/// Is this what is written for a shape?
pub open spec fn is_shape_write(
    parked: bool,
    place: ShapePlace,
    material: Option<Surface>,
    knobs: Seq<ShapeKnob>,
    w: ShapeWrite,
) -> bool {
    if parked {
        w matches ShapeWrite::Parked { pos, aux } && pos@ == seq![
            FAR_AWAY,
            FAR_AWAY,
            FAR_AWAY,
            ONE,
        ] && aux@ == seq![0u32, 0u32, 0u32, 0u32]
    } else {
        w matches ShapeWrite::Live { pos, rot, aux, knobs: values, surface } && pos@ == four(
            place.position@,
            place.scale,
        ) && rot == place.rotation && aux@ == seq![place.bound, 0u32, 0u32, 0u32] && match material {
            Some(m) => values@ == knob_values(knobs) && (surface matches Some(l) && is_packed(
                m,
                l,
            )),
            None => values@ == Seq::<[u32; 4]>::empty() && surface is None,
        }
    }
}

/// What is written for a shape. `knobs` are those of its shader, where that has
/// parsed.
pub fn shape_write(
    parked: bool,
    place: &ShapePlace,
    material: &Option<Surface>,
    knobs: &Vec<ShapeKnob>,
) -> (out: ShapeWrite)
    ensures
        is_shape_write(parked, *place, *material, knobs@, out),
{
    if parked {
        let pos: [u32; 4] = [FAR_AWAY, FAR_AWAY, FAR_AWAY, ONE];
        let aux: [u32; 4] = [0, 0, 0, 0];
        assert(pos@ =~= seq![FAR_AWAY, FAR_AWAY, FAR_AWAY, ONE]);
        assert(aux@ =~= seq![0u32, 0u32, 0u32, 0u32]);
        return ShapeWrite::Parked { pos, aux };
    }
    let pos: [u32; 4] = with_fourth(&place.position, place.scale);
    let aux: [u32; 4] = [place.bound, 0, 0, 0];
    assert(aux@ =~= seq![place.bound, 0u32, 0u32, 0u32]);
    let mut values: Vec<[u32; 4]> = Vec::new();
    match material {
        Some(m) => {
            let n: usize = if knobs.len() < SHAPE_KNOBS {
                knobs.len()
            } else {
                SHAPE_KNOBS
            };
            let mut i: usize = 0;
            while i < n
                invariant
                    i <= n <= knobs@.len(),
                    values@ == knobs@.take(i as int).map_values(|k: ShapeKnob| knob_value(k)),
                decreases n - i,
            {
                let k: ShapeKnob = knobs[i];
                values.push(
                    match k.set {
                        Some(v) => v,
                        None => k.default,
                    },
                );
                assert(values@ =~= knobs@.take(i + 1).map_values(
                    |k: ShapeKnob| knob_value(k),
                ));
                i += 1;
            }
            ShapeWrite::Live {
                pos,
                rot: place.rotation,
                aux,
                knobs: values,
                surface: Some(surface_lanes(m)),
            }
        },
        None => {
            assert(values@ =~= Seq::<[u32; 4]>::empty());
            ShapeWrite::Live { pos, rot: place.rotation, aux, knobs: values, surface: None }
        },
    }
}

/// A shape that is parked leaves nothing of where it stands: it looks the same
/// from everywhere.
pub proof fn law_a_parked_shape_is_nowhere(
    p: ShapePlace,
    q: ShapePlace,
    m: Option<Surface>,
    n: Option<Surface>,
    ks: Seq<ShapeKnob>,
    w: ShapeWrite,
)
    requires
        is_shape_write(true, p, m, ks, w),
    ensures
        is_shape_write(true, q, n, ks, w),
        w->Parked_aux@[0] == 0,
{
}

/// What a shape writes of its knobs does not reach into the lanes of the next
/// shape.
pub proof fn law_knobs_stay_in_their_slot(knobs: Seq<ShapeKnob>, slot: int, i: int)
    requires
        0 <= slot,
        0 <= i < knob_values(knobs).len(),
    ensures
        slot * SHAPE_KNOBS <= slot * SHAPE_KNOBS + i < (slot + 1) * SHAPE_KNOBS,
{
    assert((slot + 1) * SHAPE_KNOBS == slot * SHAPE_KNOBS + SHAPE_KNOBS) by (nonlinear_arith);
}

/// A shape that is drawn is put where it stands, turned as it is and within its radius. With a
/// material its knobs and its look are written; without one neither is.
pub proof fn law_a_shape_is_put_where_it_stands(
    place: ShapePlace,
    material: Option<Surface>,
    ks: Seq<ShapeKnob>,
    w: ShapeWrite,
    i: int,
)
    requires
        is_shape_write(false, place, material, ks, w),
        0 <= i < 3,
    ensures
        w matches ShapeWrite::Live { pos, rot, aux, knobs, surface } && pos@[i] == place.position@[i]
            && pos@[3] == place.scale && rot@ == place.rotation@ && aux@[0] == place.bound && (
        surface is Some <==> material is Some) && (material is Some ==> knobs@ == knob_values(ks))
            && (material is None ==> knobs@.len() == 0),
{
}

/// What the material says of a knob wins over its value from the start. The first knobs are
/// written, in order, as many as are read.
pub proof fn law_a_knob_that_is_set_wins(ks: Seq<ShapeKnob>, i: int)
    requires
        0 <= i < ks.len(),
        i < SHAPE_KNOBS,
    ensures
        knob_values(ks).len() <= SHAPE_KNOBS,
        ks.len() <= SHAPE_KNOBS ==> knob_values(ks).len() == ks.len(),
        ks.len() >= SHAPE_KNOBS ==> knob_values(ks).len() == SHAPE_KNOBS,
        ks[i].set matches Some(v) ==> knob_values(ks)[i] == v,
        ks[i].set is None ==> knob_values(ks)[i] == ks[i].default,
{
}

// ---- tilings ---------------------------------------------------------------

/// How a texture is laid on a surface. A rotation is held in radians.
#[derive(Clone, Copy, Debug, PartialEq, Eq)]
pub enum Tiling {
    Uv { count: [u32; 2], offset: [u32; 2], radians: u32 },
    Triplanar { scale: u32, blend: u32 },
}

/// The lanes of a tiling.
pub fn tiling_pack(t: &Tiling) -> (out: ([u32; 4], [u32; 4]))
    ensures
        match *t {
            Tiling::Uv { count, offset, radians } => out.0@ == seq![
                count@[0],
                count@[1],
                offset@[0],
                offset@[1],
            ] && out.1@ == seq![ONE, radians, 0u32, 0u32],
            Tiling::Triplanar { scale, blend } => out.0@ == seq![0u32, 0u32, 0u32, 0u32] && out.1@
                == seq![TWO, 0u32, scale, blend],
        },
{
    match t {
        Tiling::Uv { count, offset, radians } => {
            let a: [u32; 4] = [count[0], count[1], offset[0], offset[1]];
            let b: [u32; 4] = [ONE, *radians, 0, 0];
            assert(a@ =~= seq![count@[0], count@[1], offset@[0], offset@[1]]);
            assert(b@ =~= seq![ONE, *radians, 0u32, 0u32]);
            (a, b)
        },
        Tiling::Triplanar { scale, blend } => {
            let a: [u32; 4] = [0, 0, 0, 0];
            let b: [u32; 4] = [TWO, 0, *scale, *blend];
            assert(a@ =~= seq![0u32, 0u32, 0u32, 0u32]);
            assert(b@ =~= seq![TWO, 0u32, *scale, *blend]);
            (a, b)
        },
    }
}

/// A tiling can be told from its lanes: no two are packed alike.
pub proof fn law_a_tiling_can_be_told_from_its_lanes(
    s: Tiling,
    t: Tiling,
    out: ([u32; 4], [u32; 4]),
)
    requires
        call_ensures(tiling_pack, (&s,), out),
        call_ensures(tiling_pack, (&t,), out),
    ensures
        s is Uv <==> t is Uv,
        s matches Tiling::Uv { count, offset, radians } ==> (t matches Tiling::Uv {
            count: c,
            offset: o,
            radians: r,
        } && count@ == c@ && offset@ == o@ && radians == r),
        s matches Tiling::Triplanar { scale, blend } ==> (t matches Tiling::Triplanar {
            scale: a,
            blend: b,
        } && scale == a && blend == b),
{
    assert(s is Uv ==> out.1@[0] == ONE);
    assert(t is Uv ==> out.1@[0] == ONE);
    assert(s is Triplanar ==> out.1@[0] == TWO);
    assert(t is Triplanar ==> out.1@[0] == TWO);
    if let (Tiling::Uv { count, offset, radians }, Tiling::Uv { count: c, offset: o, radians: r }) =
        (s, t) {
        assert(out.0@[0] == count@[0] && out.0@[0] == c@[0]);
        assert(out.0@[1] == count@[1] && out.0@[1] == c@[1]);
        assert(out.0@[2] == offset@[0] && out.0@[2] == o@[0]);
        assert(out.0@[3] == offset@[1] && out.0@[3] == o@[1]);
        assert(out.1@[1] == radians && out.1@[1] == r);
        assert(count@ =~= c@);
        assert(offset@ =~= o@);
    }
    if let (Tiling::Triplanar { scale, blend }, Tiling::Triplanar { scale: a, blend: b }) = (s, t) {
        assert(out.1@[2] == scale && out.1@[2] == a);
        assert(out.1@[3] == blend && out.1@[3] == b);
    }
}

// ---- sprites ---------------------------------------------------------------

/// Where the size of a sprite comes from.
#[derive(Clone, Copy, Debug, PartialEq, Eq, Structural)]
pub enum SpriteSize {
    /// From its image: the size of one of its cells, in the pixels that a unit
    /// has.
    FromImage { cols: u32, rows: u32 },
    /// The node says it.
    Own,
}

/// Where the size of a sprite comes from: from its image where the node counts in
/// pixels and the image is there. It is drawn at its own size until then.
pub fn sprite_world_size(in_pixels: bool, image: bool, cols: u32, rows: u32) -> (out: SpriteSize)
    ensures
        out == if in_pixels && image {
            SpriteSize::FromImage {
                cols: if cols >= 1 {
                    cols
                } else {
                    1
                },
                rows: if rows >= 1 {
                    rows
                } else {
                    1
                },
            }
        } else {
            SpriteSize::Own
        },
{
    if in_pixels && image {
        SpriteSize::FromImage {
            cols: if cols >= 1 {
                cols
            } else {
                1
            },
            rows: if rows >= 1 {
                rows
            } else {
                1
            },
        }
    } else {
        SpriteSize::Own
    }
}

/// A sprite is sized by its image exactly where it counts in pixels and the image is there, and
/// then its sheet has a column and a row at least.
pub proof fn law_a_sprite_in_pixels_is_sized_by_its_image(
    in_pixels: bool,
    image: bool,
    cols: u32,
    rows: u32,
    out: SpriteSize,
)
    requires
        call_ensures(sprite_world_size, (in_pixels, image, cols, rows), out),
    ensures
        out is FromImage <==> in_pixels && image,
        out matches SpriteSize::FromImage { cols: c, rows: r } ==> c >= 1 && r >= 1 && (cols >= 1
            ==> c == cols) && (rows >= 1 ==> r == rows) && (cols == 0 ==> c == 1) && (rows == 0
            ==> r == 1),
{
}

} // verus!
