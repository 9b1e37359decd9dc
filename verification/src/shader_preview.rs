//! The pictures of what each node of a shader's graph looks like: one sheet of
//! tiles, drawn by one pipeline that is built anew only when it has to be.

use crate::table::Table;
use crate::text::{copy_of, joined, same_text};
use std::collections::HashMap;
use vstd::prelude::*;

verus! {

broadcast use vstd::std_specs::hash::group_hash_axioms;

/// The edge of a tile.
pub const TILE_PX: u32 = 128;

/// What a shader is for.
#[derive(Clone, Copy, Debug, PartialEq, Eq, Structural)]
pub enum Stage {
    Fragment,
    Sky,
    Sdf,
}

/// The pictures, as they were compiled.
pub struct CompiledPreview {
    pub wgsl: String,
    pub stage: Stage,
    /// How many textures they need.
    pub textures: usize,
    pub cols: u32,
    pub rows: u32,
}

/// What the pipeline was built from.
pub struct BuiltFrom {
    pub wgsl: String,
    pub stage: Stage,
    pub textures: usize,
}

/// The textures that are bound.
pub struct BoundTextures {
    pub slots: Vec<Option<u64>>,
    pub base: Option<u64>,
}

/// The state of the pictures.
pub struct ShaderGraphPreview {
    /// Are pictures shown at all?
    pub enabled: bool,
    pub built: Option<BuiltFrom>,
    /// The size of the sheet, where there is one.
    pub atlas: Option<(u32, u32)>,
    pub grid: (u32, u32),
    pub bound: Option<BoundTextures>,
    pub err: Option<String>,
}

/// Was the pipeline built from this?
pub open spec fn is_built_from(b: BuiltFrom, c: CompiledPreview) -> bool {
    b.wgsl@ == c.wgsl@ && b.stage == c.stage && b.textures == c.textures
}

/// Has the pipeline to be built anew?
pub open spec fn is_stale(p: ShaderGraphPreview, c: CompiledPreview) -> bool {
    !(p.built matches Some(b) && is_built_from(b, c))
}

/// Have the textures to be bound anew?
pub open spec fn rebinds(
    p: ShaderGraphPreview,
    rebuilt: bool,
    slots: Seq<Option<u64>>,
    base: Option<u64>,
) -> bool {
    rebuilt || !is_bound(p.bound, slots, base)
}

/// Are these the textures that are bound?
pub open spec fn is_bound(b: Option<BoundTextures>, slots: Seq<Option<u64>>, base: Option<u64>) -> bool {
    b matches Some(b) && b.slots@ == slots && b.base == base
}

impl ShaderGraphPreview {
    /// Nothing was drawn yet.
    pub fn new() -> (out: Self)
        ensures
            out.enabled,
            out.built is None,
            out.atlas is None,
            out.grid == (1u32, 1u32),
            out.bound is None,
            out.err is None,
    {
        ShaderGraphPreview {
            enabled: true,
            built: None,
            atlas: None,
            grid: (1, 1),
            bound: None,
            err: None,
        }
    }

    /// Are the pictures drawn in this frame? `visible` says whether the tab is
    /// seen, `open` whether a shader is open in it, and `fine` whether that has
    /// nothing wrong with it. (Otherwise the last pictures stay.)
    pub fn runs(&self, visible: bool, open: bool, fine: bool) -> (out: bool)
        ensures
            out == (visible && self.enabled && open && fine),
    {
        visible && self.enabled && open && fine
    }

    /// The pictures did not compile.
    pub fn not_compiled(&mut self, message: &str)
        ensures
            final(self).err matches Some(e) && e@ == message@,
            *final(self) == (ShaderGraphPreview { err: final(self).err, ..*old(self) }),
    {
        self.err = Some(copy_of(message));
    }

    /// Has the pipeline to be built anew?
    pub fn needs_pipeline(&self, c: &CompiledPreview) -> (out: bool)
        ensures
            out == is_stale(*self, *c),
    {
        match &self.built {
            Some(b) => !(same_text(b.wgsl.as_str(), c.wgsl.as_str()) && b.stage == c.stage
                && b.textures == c.textures),
            None => true,
        }
    }

    /// What the pipeline would be built from is refused: it stays as it was.
    pub fn refused(&mut self, message: &str)
        ensures
            final(self).err matches Some(e) && e@ == "preview shader rejected: "@ + message@,
            *final(self) == (ShaderGraphPreview { err: final(self).err, ..*old(self) }),
    {
        self.err = Some(joined("preview shader rejected: ", message));
    }

    /// The pipeline was built.
    pub fn pipeline_built(&mut self, c: &CompiledPreview)
        ensures
            final(self).built matches Some(b) && is_built_from(b, *c),
            *final(self) == (ShaderGraphPreview { built: final(self).built, ..*old(self) }),
    {
        self.built = Some(
            BuiltFrom {
                wgsl: copy_of(c.wgsl.as_str()),
                stage: c.stage,
                textures: c.textures,
            },
        );
    }

    /// Takes over the grid. The size of the sheet that has to be made, where it
    /// has.
    pub fn fit_atlas(&mut self, cols: u32, rows: u32) -> (out: Option<(u32, u32)>)
        requires
            cols * TILE_PX <= u32::MAX,
            rows * TILE_PX <= u32::MAX,
        ensures
            ({
                let size = ((cols * TILE_PX) as u32, (rows * TILE_PX) as u32);
                &&& out == if old(self).atlas == Some(size) {
                    None
                } else {
                    Some(size)
                }
                &&& *final(self) == (ShaderGraphPreview {
                    atlas: Some(size),
                    grid: (cols, rows),
                    ..*old(self)
                })
            }),
    {
        let w: u32 = cols * TILE_PX;
        let h: u32 = rows * TILE_PX;
        let same: bool = match self.atlas {
            Some((a, b)) => a == w && b == h,
            None => false,
        };
        self.grid = (cols, rows);
        self.atlas = Some((w, h));
        if same {
            None
        } else {
            Some((w, h))
        }
    }

    /// Have the textures to be bound anew? They have once the pipeline was built
    /// anew, or where they are others.
    pub fn bind(&mut self, rebuilt: bool, slots: &Vec<Option<u64>>, base: Option<u64>) -> (out: bool)
        ensures
            out == rebinds(*old(self), rebuilt, slots@, base),
            is_bound(final(self).bound, slots@, base),
            *final(self) == (ShaderGraphPreview { bound: final(self).bound, ..*old(self) }),
    {
        let same: bool = match &self.bound {
            Some(b) => same_slots(&b.slots, slots) && same_texture(b.base, base),
            None => false,
        };
        if rebuilt || !same {
            self.bound = Some(BoundTextures { slots: copied_slots(slots), base });
            return true;
        }
        false
    }

    /// The pictures were drawn.
    pub fn drawn(&mut self)
        ensures
            *final(self) == (ShaderGraphPreview { err: None, ..*old(self) }),
    {
        self.err = None;
    }

    /// The column and the row of a tile.
    pub fn tile_cell(&self, i: u32) -> (out: (u32, u32))
        ensures
            out == cell_of(self.grid.0, i),
    {
        let cols: u32 = if self.grid.0 >= 1 {
            self.grid.0
        } else {
            1
        };
        (i % cols, i / cols)
    }
}

/// The column and the row of a tile.
pub open spec fn cell_of(cols: u32, i: u32) -> (u32, u32) {
    let c: u32 = if cols >= 1 {
        cols
    } else {
        1
    };
    (i % c, i / c)
}

/// Every tile of a grid has a cell of its own, inside of the grid.
pub proof fn law_tiles_do_not_overlap(cols: u32, rows: u32, i: u32, j: u32)
    requires
        cols >= 1,
        i < cols * rows,
        j < cols * rows,
    ensures
        cell_of(cols, i).0 < cols,
        cell_of(cols, i).1 < rows,
        cell_of(cols, i) == cell_of(cols, j) ==> i == j,
{
    vstd::arithmetic::div_mod::lemma_fundamental_div_mod(i as int, cols as int);
    vstd::arithmetic::div_mod::lemma_fundamental_div_mod(j as int, cols as int);
    assert(i / cols < rows) by (nonlinear_arith)
        requires
            cols >= 1,
            i < cols * rows,
    ;
}

/// A graph that comes out the same once more, with the same textures, builds
/// nothing and binds nothing.
pub proof fn law_an_unchanged_graph_builds_nothing(
    p: ShaderGraphPreview,
    c: CompiledPreview,
    again: CompiledPreview,
    slots: Seq<Option<u64>>,
    base: Option<u64>,
)
    requires
        p.built matches Some(b) && is_built_from(b, c),
        is_bound(p.bound, slots, base),
        again.wgsl@ == c.wgsl@,
        again.stage == c.stage,
        again.textures == c.textures,
    ensures
        !is_stale(p, again),
        !rebinds(p, is_stale(p, again), slots, base),
{
}

/// Are two textures, either of which may be missing, the same?
fn same_texture(a: Option<u64>, b: Option<u64>) -> (out: bool)
    ensures
        out == (a == b),
{
    match (a, b) {
        (Some(x), Some(y)) => x == y,
        (None, None) => true,
        _ => false,
    }
}

/// Are two lists of textures the same?
fn same_slots(a: &Vec<Option<u64>>, b: &Vec<Option<u64>>) -> (out: bool)
    ensures
        out == (a@ == b@),
{
    if a.len() != b.len() {
        return false;
    }
    let mut i: usize = 0;
    while i < a.len()
        invariant
            i <= a.len(),
            a@.len() == b@.len(),
            forall|j: int| 0 <= j < i ==> a@[j] == b@[j],
        decreases a.len() - i,
    {
        if !same_texture(a[i], b[i]) {
            assert(a@[i as int] != b@[i as int]);
            return false;
        }
        i += 1;
    }
    assert(a@ =~= b@);
    true
}

/// A copy of a list of textures.
fn copied_slots(v: &Vec<Option<u64>>) -> (out: Vec<Option<u64>>)
    ensures
        out@ == v@,
{
    let mut out: Vec<Option<u64>> = Vec::new();
    let mut i: usize = 0;
    while i < v.len()
        invariant
            i <= v.len(),
            out@ == v@.take(i as int),
        decreases v.len() - i,
    {
        out.push(v[i]);
        assert(out@ =~= v@.take(i + 1));
        i += 1;
    }
    assert(v@.take(i as int) =~= v@);
    out
}

/// The pipeline is built anew where the text, the stage or the number of textures is another,
/// and the textures are bound anew with it or where they are others.
pub proof fn law_another_shader_is_built_anew(
    p: ShaderGraphPreview,
    b: BuiltFrom,
    c: CompiledPreview,
    rebuilt: bool,
    slots: Seq<Option<u64>>,
    base: Option<u64>,
)
    ensures
        p.built is None ==> is_stale(p, c),
        p.built == Some(b) ==> (is_stale(p, c) <==> b.wgsl@ != c.wgsl@ || b.stage != c.stage
            || b.textures != c.textures),
        rebinds(p, true, slots, base),
        p.bound is None ==> rebinds(p, rebuilt, slots, base),
        p.bound matches Some(t) ==> (rebinds(p, false, slots, base) <==> t.slots@ != slots || t.base
            != base),
{
}

/// Tiles fill the rows one after the other, from the left.
pub proof fn law_tiles_fill_the_rows(cols: u32, i: u32)
    requires
        cols >= 1,
    ensures
        cell_of(cols, i).1 * cols + cell_of(cols, i).0 == i,
        i < cols ==> cell_of(cols, i) == (i, 0u32),
        cell_of(0, i) == cell_of(1, i),
{
    let c = cols as int;
    let n = i as int;
    vstd::arithmetic::div_mod::lemma_fundamental_div_mod(n, c);
    assert(c * (n / c) == (n / c) * c) by (nonlinear_arith);
    if i < cols {
        vstd::arithmetic::div_mod::lemma_small_mod(n as nat, c as nat);
        vstd::arithmetic::div_mod::lemma_basic_div(n, c);
    }
}

// ---- what the pictures are made of -----------------------------------------

/// Is `i` the first material that is drawn with the shader at `path`?
pub open spec fn is_first_user(shaders: Seq<Option<String>>, path: Seq<char>, i: int) -> bool {
    0 <= i < shaders.len() && (shaders[i] matches Some(s) && s@ == path) && forall|j: int|
        0 <= j < i ==> !((#[trigger] shaders[j]) matches Some(s) && s@ == path)
}

/// The first material of the scene that is drawn with this shader: the pictures
/// show its textures.
pub fn first_user(shaders: &Vec<Option<String>>, path: &str) -> (out: Option<usize>)
    ensures
        match out {
            Some(i) => is_first_user(shaders@, path@, i as int),
            None => forall|j: int|
                0 <= j < shaders@.len() ==> !((#[trigger] shaders@[j]) matches Some(s) && s@
                    == path@),
        },
{
    let mut i: usize = 0;
    while i < shaders.len()
        invariant
            i <= shaders.len(),
            forall|j: int|
                0 <= j < i ==> !((#[trigger] shaders@[j]) matches Some(s) && s@ == path@),
        decreases shaders.len() - i,
    {
        match &shaders[i] {
            Some(s) => {
                if same_text(s.as_str(), path) {
                    return Some(i);
                }
            },
            None => {},
        }
        i += 1;
    }
    None
}

/// The texture that a material has for each slot, by the name of the slot.
pub fn slot_textures(slots: &Vec<String>, material: Option<&Table<u64>>) -> (out: Vec<Option<u64>>)
    requires
        material matches Some(m) ==> m.wf(),
    ensures
        out@.len() == slots@.len(),
        forall|i: int|
            0 <= i < slots@.len() ==> #[trigger] out@[i] == match material {
                Some(m) => if m@.contains_key(slots@[i]@) {
                    Some(m@[slots@[i]@])
                } else {
                    None
                },
                None => None,
            },
{
    let mut out: Vec<Option<u64>> = Vec::new();
    let mut i: usize = 0;
    while i < slots.len()
        invariant
            i <= slots.len(),
            out@.len() == i,
            material matches Some(m) ==> m.wf(),
            forall|j: int|
                0 <= j < i ==> #[trigger] out@[j] == match material {
                    Some(m) => if m@.contains_key(slots@[j]@) {
                        Some(m@[slots@[j]@])
                    } else {
                        None
                    },
                    None => None,
                },
        decreases slots.len() - i,
    {
        match material {
            Some(m) => match m.get(slots[i].as_str()) {
                Some(t) => {
                    out.push(Some(*t));
                },
                None => {
                    out.push(None);
                },
            },
            None => {
                out.push(None);
            },
        }
        i += 1;
    }
    out
}

/// The tile of each node: the place where it stands among those that have a
/// picture. The last counts where one stands there twice.
pub open spec fn tile_map(keys: Seq<u64>) -> Map<u64, usize>
    decreases keys.len(),
{
    if keys.len() == 0 {
        Map::empty()
    } else {
        tile_map(keys.drop_last()).insert(keys.last(), (keys.len() - 1) as usize)
    }
}

/// The tile of each node.
pub fn tiles(keys: &Vec<u64>) -> (out: HashMap<u64, usize>)
    ensures
        out@ == tile_map(keys@),
{
    let mut out: HashMap<u64, usize> = HashMap::new();
    let mut i: usize = 0;
    assert(out@ =~= tile_map(keys@.take(0)));
    while i < keys.len()
        invariant
            i <= keys.len(),
            out@ == tile_map(keys@.take(i as int)),
        decreases keys.len() - i,
    {
        let _was: Option<usize> = out.insert(keys[i], i);
        assert(keys@.take(i + 1).drop_last() =~= keys@.take(i as int));
        i += 1;
    }
    assert(keys@.take(i as int) =~= keys@);
    out
}

/// The edge of the board that stands in for a texture.
pub const CHECKER_EDGE: u32 = 64;

/// A byte of the board: light and dark squares of eight by eight points.
pub open spec fn checker_byte(i: int) -> u8 {
    let point = i / 4;
    let x = point % 64;
    let y = point / 64;
    let light = (x / 8 + y / 8) % 2 == 0;
    let lane = i % 4;
    if lane == 3 {
        255
    } else if light {
        if lane == 2 {
            195
        } else {
            190
        }
    } else {
        if lane == 2 {
            126
        } else {
            120
        }
    }
}

/// The board that stands in for a texture that is not there.
pub fn checkerboard() -> (out: Vec<u8>)
    ensures
        out@.len() == 64 * 64 * 4,
        forall|i: int| 0 <= i < out@.len() ==> #[trigger] out@[i] == checker_byte(i),
{
    let mut px: Vec<u8> = Vec::new();
    let mut y: u32 = 0;
    while y < CHECKER_EDGE
        invariant
            y <= 64,
            px@.len() == y * 256,
            forall|i: int| 0 <= i < px@.len() ==> #[trigger] px@[i] == checker_byte(i),
        decreases 64 - y,
    {
        let mut x: u32 = 0;
        while x < CHECKER_EDGE
            invariant
                x <= 64,
                y < 64,
                px@.len() == y * 256 + x * 4,
                forall|i: int| 0 <= i < px@.len() ==> #[trigger] px@[i] == checker_byte(i),
            decreases 64 - x,
        {
            let light: bool = (x / 8 + y / 8) % 2 == 0;
            let (c, b): (u8, u8) = if light {
                (190, 195)
            } else {
                (120, 126)
            };
            proof {
                let at = y * 256 + x * 4;
                assert(at / 4 == y * 64 + x);
                assert((y * 64 + x) % 64 == x && (y * 64 + x) / 64 == y);
                assert((at + 1) / 4 == y * 64 + x && (at + 2) / 4 == y * 64 + x && (at + 3) / 4 == y
                    * 64 + x);
            }
            px.push(c);
            px.push(c);
            px.push(b);
            px.push(255);
            x += 1;
        }
        y += 1;
    }
    px
}

/// A node that has a picture has the tile of the place where it stands last, and one that has
/// none has no tile.
pub proof fn law_a_node_has_the_tile_of_its_place(keys: Seq<u64>, i: int, k: u64)
    requires
        keys.len() <= usize::MAX,
        0 <= i < keys.len(),
    ensures
        tile_map(keys).contains_key(k) <==> keys.contains(k),
        tile_map(keys).contains_key(keys[i]),
        i <= tile_map(keys)[keys[i]] < keys.len(),
        keys[tile_map(keys)[keys[i]] as int] == keys[i],
        keys.no_duplicates() ==> tile_map(keys)[keys[i]] == i,
    decreases keys.len(),
{
    let less = keys.drop_last();
    if less.len() > 0 {
        law_a_node_has_the_tile_of_its_place(less, if i < less.len() {
            i
        } else {
            0
        }, k);
    } else {
        assert(tile_map(less) =~= Map::empty());
    }
    if keys.contains(k) {
        let j = choose|j: int| 0 <= j < keys.len() && keys[j] == k;
        if j < less.len() {
            assert(less[j] == k);
            assert(less.contains(k));
        }
    }
    if tile_map(keys).contains_key(k) && k != keys.last() {
        assert(less.contains(k));
        let j = choose|j: int| 0 <= j < less.len() && less[j] == k;
        assert(keys[j] == k);
    }
    if k == keys.last() {
        assert(keys[keys.len() - 1] == k);
    }
    if i < less.len() && keys[i] != keys.last() {
        assert(less[i] == keys[i]);
        let t = tile_map(less)[less[i]] as int;
        assert(keys[t] == less[t]);
    }
}

/// Where a byte of the board is.
proof fn lemma_checker_place(x: int, y: int, lane: int) -> (i: int)
    requires
        0 <= x < 64,
        0 <= y < 64,
        0 <= lane < 4,
    ensures
        i == 4 * (64 * y + x) + lane,
        i / 4 == 64 * y + x,
        i % 4 == lane,
        (i / 4) % 64 == x,
        (i / 4) / 64 == y,
{
    4 * (64 * y + x) + lane
}

/// The board is solid everywhere, and its squares are light and dark in turn: eight points
/// further to the right or further down is a square of the other kind.
pub proof fn law_the_board_is_chequered(x: int, y: int, lane: int)
    requires
        0 <= x < 64,
        0 <= y < 64,
        0 <= lane < 4,
    ensures
        lane == 3 ==> checker_byte(4 * (64 * y + x) + lane) == 255,
        lane < 3 && x + 8 < 64 ==> checker_byte(4 * (64 * y + x) + lane) != checker_byte(
            4 * (64 * y + (x + 8)) + lane,
        ),
        lane < 3 && y + 8 < 64 ==> checker_byte(4 * (64 * y + x) + lane) != checker_byte(
            4 * (64 * (y + 8) + x) + lane,
        ),
        lane < 3 && x % 8 < 7 ==> checker_byte(4 * (64 * y + x) + lane) == checker_byte(
            4 * (64 * y + (x + 1)) + lane,
        ),
{
    let i = lemma_checker_place(x, y, lane);
    assert(lane == 3 ==> checker_byte(i) == 255);
    if lane < 3 && x + 8 < 64 {
        let j = lemma_checker_place(x + 8, y, lane);
        assert((x + 8) / 8 == x / 8 + 1);
        assert(checker_byte(i) != checker_byte(j));
    }
    if lane < 3 && y + 8 < 64 {
        let j = lemma_checker_place(x, y + 8, lane);
        assert((y + 8) / 8 == y / 8 + 1);
        assert(checker_byte(i) != checker_byte(j));
    }
    if lane < 3 && x % 8 < 7 {
        let j = lemma_checker_place(x + 1, y, lane);
        assert((x + 1) / 8 == x / 8);
        assert(checker_byte(i) == checker_byte(j));
    }
}

// ---- values that can be dragged --------------------------------------------

/// A value of the shader that can be dragged without building anything anew.
#[derive(Clone, Copy, Debug, PartialEq, Eq, Structural)]
pub enum Literal {
    Number,
    Colour,
    /// Anything else.
    Other,
}

/// The slot of such a value: what it is, and how many lanes it has.
#[derive(Clone, Copy, Debug, PartialEq, Eq, Structural)]
pub struct LiveSlot {
    pub literal: Literal,
    pub lanes: u8,
}

/// The first lane of the values, behind those of the grid.
pub const FIRST_LANE: usize = 4;

/// How many lanes there are.
pub const LANES: usize = 260;

/// The lane of the slot at `i`.
pub open spec fn lane_of(slots: Seq<LiveSlot>, i: int) -> int
    decreases i,
{
    if i <= 0 {
        FIRST_LANE as int
    } else {
        lane_of(slots, i - 1) + slots[i - 1].lanes
    }
}

/// Is a value written? A number takes one lane and a colour four.
pub open spec fn is_written(s: LiveSlot) -> bool {
    (s.literal == Literal::Number && s.lanes == 1) || (s.literal == Literal::Colour && s.lanes == 4)
}

/// A value that is written: of which slot, and from which lane on.
#[derive(Clone, Copy, Debug, PartialEq, Eq, Structural)]
pub struct LaneWrite {
    pub slot: usize,
    pub lane: usize,
}

/// The values of the first `n` slots that are written. Those that find no lane
/// are not.
pub open spec fn writes_of(slots: Seq<LiveSlot>, n: int) -> Seq<LaneWrite>
    decreases n,
{
    if n <= 0 {
        seq![]
    } else {
        let before = writes_of(slots, n - 1);
        if is_written(slots[n - 1]) && lane_of(slots, n - 1) < LANES {
            before.push(
                LaneWrite { slot: (n - 1) as usize, lane: lane_of(slots, n - 1) as usize },
            )
        } else {
            before
        }
    }
}

/// Lanes only grow.
proof fn lemma_lanes_grow(slots: Seq<LiveSlot>, i: int, j: int)
    requires
        0 <= i <= j,
    ensures
        lane_of(slots, i) <= lane_of(slots, j),
    decreases j - i,
{
    if i < j {
        lemma_lanes_grow(slots, i, j - 1);
    }
}

/// Once the lanes are used up, nothing more is written.
proof fn lemma_no_more_writes(slots: Seq<LiveSlot>, i: int, n: int)
    requires
        0 <= i <= n,
        lane_of(slots, i) >= LANES,
    ensures
        writes_of(slots, n) == writes_of(slots, i),
    decreases n - i,
{
    if i < n {
        lemma_no_more_writes(slots, i, n - 1);
        lemma_lanes_grow(slots, i, n - 1);
    }
}

/// Does every value that is written find all of its lanes?
pub open spec fn lanes_fit(slots: Seq<LiveSlot>) -> bool {
    forall|i: int|
        0 <= i < slots.len() && is_written(#[trigger] slots[i]) && lane_of(slots, i) < LANES
            ==> lane_of(slots, i) + slots[i].lanes <= LANES
}

/// Where the values that can be dragged are written.
pub fn lane_writes(slots: &Vec<LiveSlot>) -> (out: Vec<LaneWrite>)
    requires
        lanes_fit(slots@),
    ensures
        out@ == writes_of(slots@, slots@.len() as int),
{
    let mut out: Vec<LaneWrite> = Vec::new();
    let mut lane: usize = FIRST_LANE;
    let mut i: usize = 0;
    assert(out@ =~= writes_of(slots@, 0));
    while i < slots.len()
        invariant
            i <= slots.len(),
            lane == lane_of(slots@, i as int),
            lane < LANES,
            out@ == writes_of(slots@, i as int),
        decreases slots.len() - i,
    {
        let s: LiveSlot = slots[i];
        if (s.literal == Literal::Number && s.lanes == 1) || (s.literal == Literal::Colour
            && s.lanes == 4) {
            out.push(LaneWrite { slot: i, lane });
        }
        lane += s.lanes as usize;
        i += 1;
        if lane >= LANES {
            proof {
                lemma_no_more_writes(slots@, i as int, slots@.len() as int);
            }
            return out;
        }
    }
    out
}

/// No two values that are written share a lane, and every number has one.
pub proof fn law_values_do_not_share_lanes(slots: Seq<LiveSlot>, i: int, j: int)
    requires
        0 <= i < j < slots.len(),
        is_written(slots[i]),
    ensures
        lane_of(slots, i) + slots[i].lanes <= lane_of(slots, j),
{
    lemma_lanes_grow(slots, i + 1, j);
}

/// How many knobs a shader is shown with.
pub const MAX_KNOBS: usize = 16;

/// The lane of a knob among the values that all shaders see: only shapes read
/// their knobs there.
pub fn global_lane(stage: Stage, i: usize) -> (out: Option<usize>)
    ensures
        out == if stage == Stage::Sdf && i < MAX_KNOBS {
            Some((8 + i * 4) as usize)
        } else {
            None
        },
{
    if stage == Stage::Sdf && i < MAX_KNOBS {
        Some(8 + i * 4)
    } else {
        None
    }
}

/// The lane of a knob among the values of a look.
pub fn param_lane(stage: Stage, i: usize) -> (out: Option<usize>)
    ensures
        out == if stage != Stage::Sdf && i < MAX_KNOBS {
            Some((i * 4) as usize)
        } else {
            None
        },
{
    if stage != Stage::Sdf && i < MAX_KNOBS {
        Some(i * 4)
    } else {
        None
    }
}

/// A number takes one lane and a colour four; a value of any other shape is not written. Each
/// that is written is written where its lane is, behind those before it, as long as there are
/// lanes.
pub proof fn law_a_value_is_written_to_its_lane(slots: Seq<LiveSlot>, n: int)
    requires
        0 < n <= slots.len() <= usize::MAX,
    ensures
        ({
            let before = writes_of(slots, n - 1);
            let after = writes_of(slots, n);
            let s = slots[n - 1];
            let fits = (s.literal is Number && s.lanes == 1 || s.literal is Colour && s.lanes == 4)
                && lane_of(slots, n - 1) < LANES;
            &&& before.is_prefix_of(after)
            &&& after.len() == before.len() + if fits {
                1nat
            } else {
                0nat
            }
            &&& fits ==> after.last().slot == n - 1 && after.last().lane == lane_of(slots, n - 1)
        }),
        lane_of(slots, 0) == FIRST_LANE,
        lane_of(slots, n) - lane_of(slots, n - 1) == slots[n - 1].lanes,
{
    lemma_lanes_grow(slots, 0, n - 1);
}

/// A knob is read in one place: that of a shape among the values that all shaders see, that of
/// a look among its own. No two knobs share a lane there.
pub proof fn law_a_knob_is_read_in_one_place(
    stage: Stage,
    i: usize,
    j: usize,
    global: Option<usize>,
    own: Option<usize>,
    global_j: Option<usize>,
    own_j: Option<usize>,
)
    requires
        call_ensures(global_lane, (stage, i), global),
        call_ensures(param_lane, (stage, i), own),
        call_ensures(global_lane, (stage, j), global_j),
        call_ensures(param_lane, (stage, j), own_j),
        i < j < MAX_KNOBS,
    ensures
        global is Some <==> stage is Sdf,
        own is Some <==> !(stage is Sdf),
        stage is Sdf ==> global_j->Some_0 - global->Some_0 == 4 * (j - i) && global->Some_0 >= 8,
        !(stage is Sdf) ==> own_j->Some_0 - own->Some_0 == 4 * (j - i) && (i == 0 ==> own
            == Some(0usize)),
{
}

// ---- what is bound ---------------------------------------------------------

/// What a pipeline reads.
#[derive(Clone, Copy, Debug, PartialEq, Eq, Structural)]
pub enum Resource {
    /// The light of the pictures.
    Light,
    /// The time, and the knobs of shapes.
    Globals,
    /// The grid, and the values that can be dragged.
    Grid,
    /// The knobs of looks.
    Params,
    /// The texture that a material has in any case.
    BaseTexture,
    /// The texture of a slot.
    SlotTexture(usize),
    Sampler,
}

/// Something that is bound, and under which number.
#[derive(Clone, Copy, Debug, PartialEq, Eq, Structural)]
pub struct Binding {
    pub number: u32,
    pub resource: Resource,
}

/// What is bound of the slots: each has a texture and a sampler.
pub open spec fn slot_bindings(n: int) -> Seq<Binding>
    decreases n,
{
    if n <= 0 {
        seq![Binding { number: 0, resource: Resource::Params }]
    } else {
        slot_bindings(n - 1).push(
            Binding {
                number: (2 * n - 1) as u32,
                resource: Resource::SlotTexture((n - 1) as usize),
            },
        ).push(Binding { number: (2 * n) as u32, resource: Resource::Sampler })
    }
}

/// The groups of what is bound.
pub open spec fn groups_of(stage: Stage, textures: int) -> Seq<Seq<Binding>> {
    if stage == Stage::Sdf {
        seq![
            seq![
                Binding { number: 0, resource: Resource::Globals },
                Binding { number: 1, resource: Resource::Grid },
            ],
        ]
    } else {
        seq![
            seq![
                Binding { number: 0, resource: Resource::Light },
                Binding { number: 1, resource: Resource::Globals },
                Binding { number: 2, resource: Resource::Grid },
            ],
            seq![
                Binding { number: 0, resource: Resource::BaseTexture },
                Binding { number: 1, resource: Resource::Sampler },
            ],
            slot_bindings(textures),
        ]
    }
}

/// Groups as plain data.
pub open spec fn groups(v: Seq<Vec<Binding>>) -> Seq<Seq<Binding>> {
    v.map_values(|g: Vec<Binding>| g@)
}

/// The groups of what is bound: the same for the layout of the pipeline and for
/// what is bound to it.
pub fn bind_groups(stage: Stage, textures: usize) -> (out: Vec<Vec<Binding>>)
    requires
        2 * textures <= u32::MAX,
    ensures
        groups(out@) == groups_of(stage, textures as int),
{
    let mut out: Vec<Vec<Binding>> = Vec::new();
    if stage == Stage::Sdf {
        let mut g: Vec<Binding> = Vec::new();
        g.push(Binding { number: 0, resource: Resource::Globals });
        g.push(Binding { number: 1, resource: Resource::Grid });
        let ghost gm = g@;
        out.push(g);
        proof {
            assert(gm =~= groups_of(stage, textures as int)[0]);
            assert(groups(out@) =~= groups_of(stage, textures as int));
        }
        return out;
    }
    let mut g0: Vec<Binding> = Vec::new();
    g0.push(Binding { number: 0, resource: Resource::Light });
    g0.push(Binding { number: 1, resource: Resource::Globals });
    g0.push(Binding { number: 2, resource: Resource::Grid });
    let mut g1: Vec<Binding> = Vec::new();
    g1.push(Binding { number: 0, resource: Resource::BaseTexture });
    g1.push(Binding { number: 1, resource: Resource::Sampler });
    let mut g2: Vec<Binding> = Vec::new();
    g2.push(Binding { number: 0, resource: Resource::Params });
    let mut i: usize = 0;
    assert(g2@ =~= slot_bindings(0));
    while i < textures
        invariant
            i <= textures,
            2 * textures <= u32::MAX,
            g2@ == slot_bindings(i as int),
        decreases textures - i,
    {
        let n: u32 = i as u32;
        g2.push(Binding { number: 1 + 2 * n, resource: Resource::SlotTexture(i) });
        g2.push(Binding { number: 2 + 2 * n, resource: Resource::Sampler });
        i += 1;
    }
    let ghost (m0, m1, m2) = (g0@, g1@, g2@);
    out.push(g0);
    out.push(g1);
    out.push(g2);
    proof {
        assert(m0 =~= groups_of(stage, textures as int)[0]);
        assert(m1 =~= groups_of(stage, textures as int)[1]);
        assert(groups(out@) =~= groups_of(stage, textures as int));
    }
    out
}

/// In the group of the slots every binding stands at the place of its number, so
/// no two share one.
pub proof fn law_bindings_are_numbered_in_order(n: int, i: int)
    requires
        0 <= 2 * n <= u32::MAX,
        0 <= i < slot_bindings(n).len(),
    ensures
        slot_bindings(n).len() == 2 * n + 1,
        slot_bindings(n)[i].number == i,
    decreases n,
{
    if n > 0 {
        lemma_slot_count(n);
        lemma_slot_count(n - 1);
        if i < 2 * n - 1 {
            law_bindings_are_numbered_in_order(n - 1, i);
            assert(slot_bindings(n)[i] == slot_bindings(n - 1)[i]);
        }
    }
}

/// How many bindings the group of the slots has.
proof fn lemma_slot_count(n: int)
    requires
        0 <= n,
    ensures
        slot_bindings(n).len() == 2 * n + 1,
    decreases n,
{
    if n > 0 {
        lemma_slot_count(n - 1);
    }
}

/// Each slot has its own texture and a sampler behind it, behind the knobs.
pub proof fn law_each_slot_has_its_texture(n: int, k: int)
    requires
        0 <= k < n,
        2 * n <= u32::MAX,
    ensures
        slot_bindings(n).len() == 2 * n + 1,
        slot_bindings(n)[0].resource is Params,
        slot_bindings(n)[2 * k + 1].resource == Resource::SlotTexture(k as usize),
        slot_bindings(n)[2 * k + 2].resource is Sampler,
    decreases n,
{
    lemma_slot_count(n - 1);
    lemma_slot_count(n);
    let less = slot_bindings(n - 1);
    if k < n - 1 {
        law_each_slot_has_its_texture(n - 1, k);
    } else if n == 1 {
        assert(less[0].resource is Params);
    } else {
        law_each_slot_has_its_texture(n - 1, 0);
    }
    assert(slot_bindings(n)[0] == less[0]);
}

/// A shape binds one group and a look three: the light, the textures and the knobs are a
/// look's alone, and both read the globals and the grid. In each group the bindings are
/// numbered from zero on.
pub proof fn law_a_look_binds_more_than_a_shape(stage: Stage, textures: int)
    requires
        0 <= textures,
    ensures
        ({
            let g = groups_of(stage, textures);
            &&& stage is Sdf <==> g.len() == 1
            &&& !(stage is Sdf) <==> g.len() == 3
            &&& stage is Sdf ==> g[0].len() == 2 && g[0][0].resource is Globals && g[0][1].resource is Grid
            &&& !(stage is Sdf) ==> g[0].len() == 3 && g[0][0].resource is Light && g[0][1].resource is Globals
                && g[0][2].resource is Grid && g[1].len() == 2 && g[1][0].resource is BaseTexture
                && g[1][1].resource is Sampler && g[2] == slot_bindings(textures)
            &&& forall|i: int| 0 <= i < g[0].len() ==> (#[trigger] g[0][i]).number == i
            &&& !(stage is Sdf) ==> forall|i: int|
                0 <= i < g[1].len() ==> (#[trigger] g[1][i]).number == i
        }),
{
}

/// An atlas is made anew only where its size has changed: asked for again, it is not. Every tile
/// of the grid has its room.
pub proof fn law_an_atlas_is_made_once(
    once: &mut ShaderGraphPreview,
    twice: &mut ShaderGraphPreview,
    cols: u32,
    rows: u32,
    x: Option<(u32, u32)>,
    y: Option<(u32, u32)>,
)
    requires
        cols * TILE_PX <= u32::MAX,
        rows * TILE_PX <= u32::MAX,
        call_ensures(ShaderGraphPreview::fit_atlas, (once, cols, rows), x),
        call_ensures(ShaderGraphPreview::fit_atlas, (twice, cols, rows), y),
        *old(twice) == *final(once),
    ensures
        y is None,
        *final(twice) == *final(once),
        final(once).grid == (cols, rows),
        final(once).atlas is Some && final(once).atlas->Some_0.0 == cols * TILE_PX && final(once).atlas->Some_0.1 == rows * TILE_PX,
        x is Some ==> x == final(once).atlas && old(once).atlas != x,
        x is None ==> old(once).atlas == final(once).atlas,
        final(once).err == old(once).err,
{
}

/// A shader that does not compile says why, and what was drawn before stays.
pub proof fn law_what_does_not_compile_keeps_its_picture(s: &mut ShaderGraphPreview, message: &str)
    requires
        call_ensures(ShaderGraphPreview::not_compiled, (s, message), ()),
    ensures
        final(s).err is Some && final(s).err->Some_0@ == message@,
        final(s).atlas == old(s).atlas,
        final(s).grid == old(s).grid,
{
}

} // verus!
