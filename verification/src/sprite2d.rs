//! Flat scenes: tilemaps cut from sheets, and what is drawn in front of what.
//!
//! A tilemap is drawn as one mesh for each sheet that its squares come from. The
//! meshes themselves and the sizes of what is drawn are made elsewhere; this
//! module says which squares go to which sheet, when a map has to be built
//! again, which sheet a mesh is drawn with, and how the nodes of a scene are
//! stacked.

use crate::lists::{lemma_filter_holds, lemma_filter_none, lemma_filter_step, place_of};
use crate::script_meta::opt_text;
use crate::table::Table;
use crate::text::{chars_of, copy_of, same_text, trim, trimmed};
use vstd::prelude::*;

verus! {

// ---- squares ---------------------------------------------------------------

/// A cell of a sheet: the page that is its sheet, and its number there.
#[derive(Clone, Copy, Debug, PartialEq, Eq, Structural)]
pub struct TileIndex {
    pub page: u32,
    pub cell: u32,
}

/// How a tile is turned in its square.
#[derive(Clone, Copy, Debug, PartialEq, Eq, Structural)]
pub struct TileXform {
    pub turns: u8,
    pub flipped: bool,
}

/// A square of a grid: the cell it shows, and how it is turned.
#[derive(Clone, Copy, Debug, PartialEq, Eq, Structural)]
pub struct Square {
    pub tile: TileIndex,
    pub xform: TileXform,
}

/// A square as the mesh of one page shows it: its cell is numbered within that
/// page, and everything that the page does not hold is a hole.
pub open spec fn on_page(square: Option<Square>, page: u32, page_cells: u32) -> Option<Square> {
    match square {
        Some(s) => if s.tile.page == page && s.tile.cell < page_cells {
            Some(Square { tile: TileIndex { page: 0, cell: s.tile.cell }, xform: s.xform })
        } else {
            None
        },
        None => None,
    }
}

/// The grid as the mesh of one page shows it.
pub open spec fn page_grid(
    data: Seq<Option<Square>>,
    page: u32,
    page_cells: u32,
) -> Seq<Option<Square>> {
    data.map_values(|s: Option<Square>| on_page(s, page, page_cells))
}

/// Has the page a square on it?
pub open spec fn page_used(data: Seq<Option<Square>>, page: u32, page_cells: u32) -> bool {
    exists|i: int|
        0 <= i < data.len() && on_page(#[trigger] data[i], page, page_cells) is Some
}

/// The squares of `data` that live on `page`. `None` where there are none: such
/// a page needs no mesh.
pub fn page_squares(data: &Vec<Option<Square>>, page: u32, page_cells: u32) -> (out: Option<
    Vec<Option<Square>>,
>)
    ensures
        match out {
            Some(squares) => page_used(data@, page, page_cells) && squares@ == page_grid(
                data@,
                page,
                page_cells,
            ),
            None => !page_used(data@, page, page_cells),
        },
{
    let mut any: bool = false;
    let mut squares: Vec<Option<Square>> = Vec::new();
    let mut i: usize = 0;
    while i < data.len()
        invariant
            i <= data.len(),
            squares@ == page_grid(data@, page, page_cells).take(i as int),
            any ==> page_used(data@, page, page_cells),
            !any ==> forall|j: int|
                0 <= j < i ==> on_page(#[trigger] data@[j], page, page_cells) is None,
        decreases data.len() - i,
    {
        let here: Option<Square> = match data[i] {
            Some(s) => {
                if s.tile.page == page && s.tile.cell < page_cells {
                    Some(
                        Square { tile: TileIndex { page: 0, cell: s.tile.cell }, xform: s.xform },
                    )
                } else {
                    None
                }
            },
            None => None,
        };
        assert(here == on_page(data@[i as int], page, page_cells));
        if here.is_some() {
            any = true;
        }
        squares.push(here);
        i += 1;
    }
    assert(squares@ =~= page_grid(data@, page, page_cells));
    if any {
        Some(squares)
    } else {
        None
    }
}

/// No square is drawn by two pages, and a square that a page holds is drawn by
/// that page, turned as it was.
pub proof fn law_a_square_is_drawn_by_its_own_page(
    square: Option<Square>,
    page: u32,
    other: u32,
    cells: u32,
    other_cells: u32,
)
    requires
        on_page(square, page, cells) is Some,
        other != page,
    ensures
        on_page(square, other, other_cells) is None,
        on_page(square, page, cells)->Some_0.xform == square->Some_0.xform,
        on_page(square, page, cells)->Some_0.tile.cell == square->Some_0.tile.cell,
{
}

/// A grid that lies on the first page alone, within its cells, is what its mesh
/// shows.
pub proof fn law_a_grid_of_one_page_splits_to_itself(data: Seq<Option<Square>>, cells: u32)
    requires
        forall|i: int|
            0 <= i < data.len() && (#[trigger] data[i]) is Some ==> data[i]->Some_0.tile.page == 0
                && data[i]->Some_0.tile.cell < cells,
    ensures
        page_grid(data, 0, cells) == data,
{
    assert forall|i: int| 0 <= i < data.len() implies page_grid(data, 0, cells)[i] == data[i] by {
        if data[i] is Some {
            let s = data[i]->Some_0;
            assert(s.tile == (TileIndex { page: 0, cell: s.tile.cell }));
        }
    }
    assert(page_grid(data, 0, cells) =~= data);
}

/// A page shows the squares that are cut from it, within its cells, and no others: all that
/// is not on it is a hole, in the same place of the grid. In its own mesh a page is the first.
pub proof fn law_a_page_shows_its_own_squares(
    data: Seq<Option<Square>>,
    page: u32,
    cells: u32,
    i: int,
)
    requires
        0 <= i < data.len(),
    ensures
        page_grid(data, page, cells).len() == data.len(),
        page_grid(data, page, cells)[i] is Some <==> (data[i] matches Some(s) && s.tile.page == page
            && s.tile.cell < cells),
        page_grid(data, page, cells)[i] matches Some(s) ==> s.tile.page == 0 && s.tile.cell
            == data[i]->Some_0.tile.cell && s.xform == data[i]->Some_0.xform,
        page_grid(data, page, cells)[i] is Some ==> page_used(data, page, cells),
{
    if page_grid(data, page, cells)[i] is Some {
        assert(on_page(data[i], page, cells) is Some);
    }
}

// ---- animation -------------------------------------------------------------

/// A square with the frame that its tile shows now. It stays turned as it was.
pub open spec fn with_frame(square: Option<Square>, frame: Option<TileIndex>) -> Option<Square> {
    match (square, frame) {
        (Some(s), Some(f)) => Some(Square { tile: f, xform: s.xform }),
        _ => square,
    }
}

/// The grid with the frame that each tile shows now.
pub open spec fn with_frames(
    data: Seq<Option<Square>>,
    frames: Seq<Option<TileIndex>>,
) -> Seq<Option<Square>> {
    Seq::new(data.len(), |i: int| with_frame(data[i], frames[i]))
}

/// The grid with the frame that each tile shows now: `frames` has it for every
/// square of which the tile is known. `None` where every square shows what is
/// stored, which is no reason for a copy.
pub fn animate(data: &Vec<Option<Square>>, frames: &Vec<Option<TileIndex>>) -> (out: Option<
    Vec<Option<Square>>,
>)
    requires
        frames@.len() == data@.len(),
    ensures
        match out {
            Some(grid) => grid@ == with_frames(data@, frames@) && grid@ != data@,
            None => with_frames(data@, frames@) == data@,
        },
{
    let mut grid: Vec<Option<Square>> = Vec::new();
    let mut moved: bool = false;
    let mut i: usize = 0;
    while i < data.len()
        invariant
            i <= data.len(),
            frames@.len() == data@.len(),
            grid@ == with_frames(data@, frames@).take(i as int),
            moved ==> with_frames(data@, frames@) != data@,
            !moved ==> forall|j: int|
                0 <= j < i ==> with_frame(#[trigger] data@[j], frames@[j]) == data@[j],
        decreases data.len() - i,
    {
        let here: Option<Square> = match (data[i], frames[i]) {
            (Some(s), Some(f)) => {
                if f != s.tile {
                    proof {
                        assert(with_frames(data@, frames@)[i as int] != data@[i as int]);
                    }
                    moved = true;
                }
                Some(Square { tile: f, xform: s.xform })
            },
            _ => data[i],
        };
        assert(here == with_frame(data@[i as int], frames@[i as int]));
        grid.push(here);
        i += 1;
    }
    assert(grid@ =~= with_frames(data@, frames@));
    if moved {
        Some(grid)
    } else {
        assert(with_frames(data@, frames@) =~= data@);
        None
    }
}

/// An animated grid is the stored grid with other frames: it has as many squares, each hole
/// is a hole, each square that is there is turned and flipped as it was, and a square of which
/// the frame is known shows exactly that frame, any other what is stored.
pub proof fn law_animation_changes_the_frames_alone(
    data: Seq<Option<Square>>,
    frames: Seq<Option<TileIndex>>,
    i: int,
)
    requires
        frames.len() == data.len(),
        0 <= i < data.len(),
    ensures
        ({
            let shown = with_frames(data, frames);
            &&& shown.len() == data.len()
            &&& shown[i] is None <==> data[i] is None
            &&& shown[i] is Some ==> shown[i]->Some_0.xform == data[i]->Some_0.xform
            &&& shown[i] is Some && frames[i] is Some ==> shown[i]->Some_0.tile == frames[i]->Some_0
            &&& shown[i] is Some && frames[i] is None ==> shown[i]->Some_0.tile
                == data[i]->Some_0.tile
        }),
{
}

/// What a grid shows now depends on its stored squares and on the frames of now, and on
/// nothing that it showed before: showing other frames over what is shown is showing them
/// over what is stored, where every frame is known.
pub proof fn law_frames_replace_frames(
    data: Seq<Option<Square>>,
    before: Seq<Option<TileIndex>>,
    now: Seq<Option<TileIndex>>,
)
    requires
        before.len() == data.len(),
        now.len() == data.len(),
        forall|i: int| 0 <= i < now.len() ==> (#[trigger] now[i]) is Some,
    ensures
        with_frames(with_frames(data, before), now) == with_frames(data, now),
{
    let shown = with_frames(data, before);
    assert forall|i: int| 0 <= i < data.len() implies with_frame(shown[i], now[i]) == with_frame(
        data[i],
        now[i],
    ) by {
        assert(now[i] is Some);
        assert(shown[i] == with_frame(data[i], before[i]));
    }
    assert(with_frames(shown, now) =~= with_frames(data, now));
}

/// A tile that may be animated: how many frames follow its own, whether it runs,
/// and how many steps it has run.
#[derive(Clone, Copy, Debug, PartialEq, Eq, Structural)]
pub struct AnimTile {
    pub frames: u32,
    pub runs: bool,
    pub steps: u32,
}

/// Where a tile is in its cycle.
pub open spec fn phase_of(t: AnimTile) -> int {
    t.steps as int % (t.frames + 1)
}

/// Where every animated tile is in its cycle, folded into one number.
pub open spec fn step_of(tiles: Seq<AnimTile>) -> int
    decreases tiles.len(),
{
    if tiles.len() == 0 {
        0
    } else {
        let t = tiles.last();
        if t.frames > 0 && t.runs {
            (step_of(tiles.drop_last()) * 31 + phase_of(t)) % 0x1_0000_0000
        } else {
            step_of(tiles.drop_last())
        }
    }
}

/// Where every animated tile is in its cycle, folded into one number that
/// changes whenever a tile moves on. A clock that says nothing (`clock` is false)
/// gives 0.
pub fn anim_step(tiles: &Vec<AnimTile>, clock: bool) -> (out: u32)
    requires
        forall|i: int| 0 <= i < tiles@.len() ==> (#[trigger] tiles@[i]).frames < u32::MAX,
    ensures
        out == if clock {
            step_of(tiles@)
        } else {
            0
        },
{
    if !clock {
        return 0;
    }
    let mut step: u32 = 0;
    let mut i: usize = 0;
    while i < tiles.len()
        invariant
            i <= tiles.len(),
            forall|k: int| 0 <= k < tiles@.len() ==> (#[trigger] tiles@[k]).frames < u32::MAX,
            step == step_of(tiles@.take(i as int)),
        decreases tiles.len() - i,
    {
        assert(tiles@.take(i + 1).drop_last() =~= tiles@.take(i as int));
        let t: AnimTile = tiles[i];
        if t.frames > 0 && t.runs {
            let phase: u32 = t.steps % (t.frames + 1);
            let next: u64 = (step as u64 * 31 + phase as u64) % 0x1_0000_0000;
            step = next as u32;
        }
        i += 1;
    }
    assert(tiles@.take(i as int) =~= tiles@);
    step
}

/// A step is a number of 32 bits.
proof fn lemma_step_fits(tiles: Seq<AnimTile>)
    ensures
        0 <= step_of(tiles) < 0x1_0000_0000,
    decreases tiles.len(),
{
    if tiles.len() > 0 {
        lemma_step_fits(tiles.drop_last());
    }
}

/// Two steps that differ still do once the same tile is folded into both: 31 has
/// no factor in common with a power of two, so that the fold can be undone.
proof fn lemma_steps_stay_apart(a: int, b: int, c: int)
    requires
        0 <= a < 0x1_0000_0000,
        0 <= b < 0x1_0000_0000,
        a != b,
    ensures
        (a * 31 + c) % 0x1_0000_0000 != (b * 31 + c) % 0x1_0000_0000,
{
    let x = a * 31 + c;
    let y = b * 31 + c;
    if x % 0x1_0000_0000 == y % 0x1_0000_0000 {
        let d = a - b;
        let e = x / 0x1_0000_0000 - y / 0x1_0000_0000;
        assert(31 * d == 0x1_0000_0000 * e);
        let z = 3186588639 * e - 23 * d;
        assert(d == 0x1_0000_0000 * z);
        assert(z == 0);
    }
}

/// Whenever a tile moves on while the others stay where they are, the number
/// changes, and with it the picture is built again.
pub proof fn law_a_tile_that_moves_on_changes_the_step(tiles: Seq<AnimTile>, i: int, t: AnimTile)
    requires
        0 <= i < tiles.len(),
        tiles[i].frames > 0 && tiles[i].runs,
        t.frames == tiles[i].frames && t.runs,
        phase_of(t) != phase_of(tiles[i]),
    ensures
        step_of(tiles.update(i, t)) != step_of(tiles),
    decreases tiles.len(),
{
    let moved = tiles.update(i, t);
    let n = tiles.len() - 1;
    lemma_step_fits(tiles.drop_last());
    if i == n {
        assert(moved.drop_last() =~= tiles.drop_last());
        let x = step_of(tiles.drop_last()) * 31;
        let a = phase_of(t);
        let b = phase_of(tiles[i]);
        assert(0 <= a < 0x1_0000_0000 && 0 <= b < 0x1_0000_0000);
        assert((x + a) % 0x1_0000_0000 != (x + b) % 0x1_0000_0000);
    } else {
        assert(moved.drop_last() =~= tiles.drop_last().update(i, t));
        assert(moved.last() == tiles.last());
        law_a_tile_that_moves_on_changes_the_step(tiles.drop_last(), i, t);
        lemma_step_fits(moved.drop_last());
        lemma_steps_stay_apart(
            step_of(moved.drop_last()),
            step_of(tiles.drop_last()),
            phase_of(tiles.last()),
        );
    }
}

/// A tile goes through its frames one by one and begins again after the last.
pub proof fn law_a_cycle_comes_round(t: AnimTile)
    requires
        t.steps < u32::MAX,
    ensures
        0 <= phase_of(t) <= t.frames,
        phase_of(AnimTile { steps: (t.steps + 1) as u32, ..t }) == if phase_of(t) == t.frames {
            0
        } else {
            phase_of(t) + 1
        },
        t.steps <= t.frames ==> phase_of(t) == t.steps,
{
    let n = t.frames + 1;
    let s = t.steps as int;
    vstd::arithmetic::div_mod::lemma_mod_bound(s, n);
    vstd::arithmetic::div_mod::lemma_fundamental_div_mod(s, n);
    let q = s / n;
    let r = s % n;
    if r == n - 1 {
        assert(s + 1 == n * (q + 1) + 0) by (nonlinear_arith)
            requires
                s == n * q + r,
                r == n - 1,
        ;
        vstd::arithmetic::div_mod::lemma_fundamental_div_mod_converse(s + 1, n, q + 1, 0);
    } else {
        vstd::arithmetic::div_mod::lemma_fundamental_div_mod_converse(s + 1, n, q, r + 1);
    }
    if s < n {
        vstd::arithmetic::div_mod::lemma_small_mod(s as nat, n as nat);
    }
}

/// A tile that does not run, or has no frames but its own, never changes the number.
pub proof fn law_a_still_tile_does_not_count(tiles: Seq<AnimTile>, t: AnimTile)
    requires
        !t.runs || t.frames == 0,
    ensures
        step_of(tiles.push(t)) == step_of(tiles),
{
    assert(tiles.push(t).drop_last() =~= tiles);
}

// ---- when a map is built again ---------------------------------------------

/// A sheet: its image, and into how many columns and rows it is cut.
pub struct SheetPage {
    pub texture: String,
    pub cols: u32,
    pub rows: u32,
}

/// The sheets as plain data.
pub open spec fn sheet_models(v: Seq<SheetPage>) -> Seq<(Seq<char>, u32, u32)> {
    v.map_values(|p: SheetPage| (p.texture@, p.cols, p.rows))
}

/// Everything that the meshes of a map are made from. Sizes that are no whole
/// numbers stand as their bits.
pub struct TileKey {
    pub cols: u32,
    pub rows: u32,
    pub tile_bits: u32,
    pub data: Vec<Option<Square>>,
    pub texel_bits: (u32, u32),
    pub anim_step: u32,
    pub pages: Vec<SheetPage>,
}

/// A [`TileKey`] as plain data.
#[verifier::ext_equal]
pub struct TileKeyModel {
    pub cols: u32,
    pub rows: u32,
    pub tile_bits: u32,
    pub data: Seq<Option<Square>>,
    pub texel_bits: (u32, u32),
    pub anim_step: u32,
    pub pages: Seq<(Seq<char>, u32, u32)>,
}

impl View for TileKey {
    type V = TileKeyModel;

    open spec fn view(&self) -> TileKeyModel {
        TileKeyModel {
            cols: self.cols,
            rows: self.rows,
            tile_bits: self.tile_bits,
            data: self.data@,
            texel_bits: self.texel_bits,
            anim_step: self.anim_step,
            pages: sheet_models(self.pages@),
        }
    }
}

/// Are two squares the same?
fn same_square(a: Option<Square>, b: Option<Square>) -> (out: bool)
    ensures
        out == (a == b),
{
    match (a, b) {
        (Some(x), Some(y)) => x == y,
        (None, None) => true,
        _ => false,
    }
}

/// Would the same meshes be made from both? A sheet that was added, taken away,
/// pointed at another image or cut anew makes a difference, though every square
/// is the same.
pub fn signature_matches(a: &TileKey, b: &TileKey) -> (out: bool)
    ensures
        out == (a@ == b@),
{
    if a.cols != b.cols || a.rows != b.rows || a.tile_bits != b.tile_bits || a.texel_bits.0
        != b.texel_bits.0 || a.texel_bits.1 != b.texel_bits.1 || a.anim_step != b.anim_step {
        return false;
    }
    if a.data.len() != b.data.len() || a.pages.len() != b.pages.len() {
        assert(sheet_models(a.pages@).len() == a.pages@.len());
        assert(sheet_models(b.pages@).len() == b.pages@.len());
        return false;
    }
    let mut i: usize = 0;
    while i < a.data.len()
        invariant
            i <= a.data.len(),
            a.data.len() == b.data.len(),
            forall|j: int| 0 <= j < i ==> a.data@[j] == b.data@[j],
        decreases a.data.len() - i,
    {
        if !same_square(a.data[i], b.data[i]) {
            return false;
        }
        i += 1;
    }
    assert(a.data@ =~= b.data@);
    let mut k: usize = 0;
    while k < a.pages.len()
        invariant
            k <= a.pages.len(),
            a.pages.len() == b.pages.len(),
            forall|j: int|
                0 <= j < k ==> #[trigger] sheet_models(a.pages@)[j] == sheet_models(b.pages@)[j],
        decreases a.pages.len() - k,
    {
        let p: &SheetPage = &a.pages[k];
        let q: &SheetPage = &b.pages[k];
        if p.cols != q.cols || p.rows != q.rows || !same_text(
            p.texture.as_str(),
            q.texture.as_str(),
        ) {
            assert(sheet_models(a.pages@)[k as int] != sheet_models(b.pages@)[k as int]);
            return false;
        }
        k += 1;
    }
    assert(sheet_models(a.pages@) =~= sheet_models(b.pages@));
    assert(a@ =~= b@);
    true
}

/// What a tileset says of its own sheet.
pub struct TilesetSheet {
    pub texture: String,
    pub cols: u32,
    pub rows: u32,
    /// The sheets of its further pages.
    pub more: Vec<SheetPage>,
}

/// What a node's material says of its sheet.
pub struct MaterialSheet {
    pub texture: Option<String>,
    pub cols: u32,
    pub rows: u32,
}

/// `n`, or 1 where it is 0.
pub open spec fn at_least_one(n: u32) -> u32 {
    if n == 0 {
        1
    } else {
        n
    }
}

/// The sheets that a map is cut from. The first is that of its tileset, where the
/// tileset names one; else it is that of the material.
pub open spec fn sheets_of(
    set: Option<TilesetSheet>,
    material: MaterialSheet,
) -> Seq<(Seq<char>, u32, u32)> {
    let first = match set {
        Some(s) if trim(s.texture@).len() > 0 => (
            s.texture@,
            at_least_one(s.cols),
            at_least_one(s.rows),
        ),
        _ => (
            match material.texture {
                Some(t) => t@,
                None => seq![],
            },
            material.cols,
            material.rows,
        ),
    };
    let more = match set {
        Some(s) => sheet_models(s.more@),
        None => seq![],
    };
    seq![first] + more
}

/// The sheets that a map is cut from.
pub fn map_sheets(set: &Option<TilesetSheet>, material: &MaterialSheet) -> (out: Vec<SheetPage>)
    ensures
        sheet_models(out@) == sheets_of(*set, *material),
{
    let mut out: Vec<SheetPage> = Vec::new();
    let named: bool = match set {
        Some(s) => trimmed(chars_of(s.texture.as_str()).as_slice()).len() > 0,
        None => false,
    };
    match set {
        Some(s) => {
            if named {
                let cols: u32 = if s.cols == 0 {
                    1
                } else {
                    s.cols
                };
                let rows: u32 = if s.rows == 0 {
                    1
                } else {
                    s.rows
                };
                out.push(SheetPage { texture: copy_of(s.texture.as_str()), cols, rows });
            }
        },
        None => {},
    }
    if !named {
        let texture: String = match &material.texture {
            Some(t) => copy_of(t.as_str()),
            None => String::new(),
        };
        out.push(SheetPage { texture, cols: material.cols, rows: material.rows });
    }
    match set {
        Some(s) => {
            let ghost first = sheet_models(out@);
            let mut i: usize = 0;
            assert(sheet_models(out@) =~= first + sheet_models(s.more@).take(0));
            while i < s.more.len()
                invariant
                    i <= s.more.len(),
                    sheet_models(out@) == first + sheet_models(s.more@).take(i as int),
                decreases s.more.len() - i,
            {
                let p: &SheetPage = &s.more[i];
                let ghost was = out@;
                out.push(
                    SheetPage { texture: copy_of(p.texture.as_str()), cols: p.cols, rows: p.rows },
                );
                assert(sheet_models(out@) =~= sheet_models(was).push(
                    sheet_models(s.more@)[i as int],
                ));
                assert(sheet_models(out@) =~= first + sheet_models(s.more@).take(i + 1));
                i += 1;
            }
            assert(sheet_models(s.more@).take(i as int) =~= sheet_models(s.more@));
            assert(sheet_models(out@) =~= sheets_of(*set, *material));
        },
        None => {
            assert(sheet_models(out@) =~= sheets_of(*set, *material));
        },
    }
    out
}

/// The first sheet of a map is that of its tileset where the tileset names one, and it has a
/// column and a row at least; else it is that of the material, as it is. The further pages of
/// the tileset follow it in order.
pub proof fn law_the_tileset_wins_over_the_material(
    set: Option<TilesetSheet>,
    material: MaterialSheet,
)
    ensures
        ({
            let sheets = sheets_of(set, material);
            let named = set is Some && trim(set->Some_0.texture@).len() > 0;
            &&& sheets.len() == 1 + if set is Some {
                set->Some_0.more@.len()
            } else {
                0
            }
            &&& named ==> sheets[0].0 == set->Some_0.texture@ && sheets[0].1 >= 1 && sheets[0].2 >= 1
            &&& named && set->Some_0.cols > 0 ==> sheets[0].1 == set->Some_0.cols
            &&& named && set->Some_0.rows > 0 ==> sheets[0].2 == set->Some_0.rows
            &&& named && set->Some_0.cols == 0 ==> sheets[0].1 == 1
            &&& named && set->Some_0.rows == 0 ==> sheets[0].2 == 1
            &&& !named ==> sheets[0].1 == material.cols && sheets[0].2 == material.rows
            &&& !named && material.texture is Some ==> sheets[0].0 == material.texture->Some_0@
            &&& !named && material.texture is None ==> sheets[0].0.len() == 0
            &&& set is Some ==> forall|i: int|
                0 <= i < set->Some_0.more@.len() ==> #[trigger] sheets[i + 1] == (
                    set->Some_0.more@[i].texture@,
                    set->Some_0.more@[i].cols,
                    set->Some_0.more@[i].rows,
                )
        }),
{
}

// ---- the meshes of the maps ------------------------------------------------

/// The mesh of one page of a map.
pub struct TilePage {
    /// Its number in the graphics pass.
    pub mesh: u64,
    pub page: u32,
    /// The image that it is drawn with, where one is named.
    pub texture: Option<String>,
    /// Has it nothing to draw?
    pub empty: bool,
}

/// A map that has been built: its node, its meshes, and what they were made
/// from.
pub struct TileGpu {
    pub entity: u64,
    pub pages: Vec<TilePage>,
    pub key: TileKey,
}

/// The maps that have been built.
pub struct Tilemaps {
    pub maps: Vec<TileGpu>,
}

/// Has each node one map at most?
pub open spec fn each_map_once(maps: Seq<TileGpu>) -> bool {
    forall|i: int, j: int|
        0 <= i < j < maps.len() ==> (#[trigger] maps[i]).entity != (#[trigger] maps[j]).entity
}

/// Is a map of the node among these?
pub open spec fn has_map(maps: Seq<TileGpu>, entity: u64) -> bool {
    exists|i: int| 0 <= i < maps.len() && (#[trigger] maps[i]).entity == entity
}

/// The meshes of some pages.
pub open spec fn meshes_of(pages: Seq<TilePage>) -> Seq<u64> {
    pages.map_values(|p: TilePage| p.mesh)
}

/// The meshes of some maps, map by map.
pub open spec fn all_meshes(maps: Seq<TileGpu>) -> Seq<u64>
    decreases maps.len(),
{
    if maps.len() == 0 {
        seq![]
    } else {
        all_meshes(maps.drop_last()) + meshes_of(maps.last().pages@)
    }
}

/// The first map of the node, or the number of maps.
pub open spec fn map_place(maps: Seq<TileGpu>, entity: u64) -> int
    decreases maps.len(),
{
    if maps.len() == 0 {
        0
    } else if maps[0].entity == entity {
        0
    } else {
        1 + map_place(maps.skip(1), entity)
    }
}

/// The maps once that of a node is `map`.
pub open spec fn with_map(maps: Seq<TileGpu>, map: TileGpu) -> Seq<TileGpu> {
    let i = map_place(maps, map.entity);
    if i < maps.len() {
        maps.update(i, map)
    } else {
        maps.push(map)
    }
}

/// `map_place` is the first place that the node holds.
proof fn lemma_map_place(maps: Seq<TileGpu>, entity: u64)
    ensures
        0 <= map_place(maps, entity) <= maps.len(),
        map_place(maps, entity) < maps.len() ==> maps[map_place(maps, entity)].entity == entity,
        map_place(maps, entity) < maps.len() <==> has_map(maps, entity),
    decreases maps.len(),
{
    if maps.len() > 0 && maps[0].entity != entity {
        let rest = maps.skip(1);
        lemma_map_place(rest, entity);
        if has_map(rest, entity) {
            let k = choose|k: int| 0 <= k < rest.len() && (#[trigger] rest[k]).entity == entity;
            assert(maps[k + 1].entity == entity);
        }
        if has_map(maps, entity) {
            let k = choose|k: int| 0 <= k < maps.len() && (#[trigger] maps[k]).entity == entity;
            assert(rest[k - 1].entity == entity);
        }
    }
}

/// Maps that are dropped leave each node one at most.
proof fn lemma_maps_kept_once(maps: Seq<TileGpu>, keep: spec_fn(TileGpu) -> bool)
    requires
        each_map_once(maps),
    ensures
        each_map_once(maps.filter(keep)),
    decreases maps.len(),
{
    reveal(Seq::filter);
    if maps.len() > 0 {
        let front = maps.drop_last();
        lemma_maps_kept_once(front, keep);
        let kept = front.filter(keep);
        assert forall|i: int| 0 <= i < kept.len() implies (#[trigger] kept[i]).entity
            != maps.last().entity by {
            front.lemma_filter_contains_rev(keep, kept[i]);
            let k = choose|k: int| 0 <= k < front.len() && front[k] == kept[i];
            assert(maps[k].entity != maps[maps.len() - 1].entity);
        }
    }
}

/// A map that is built is the only one of its node.
proof fn lemma_built_once(maps: Seq<TileGpu>, map: TileGpu)
    requires
        each_map_once(maps),
    ensures
        each_map_once(with_map(maps, map)),
{
    lemma_map_place(maps, map.entity);
}

/// However maps are dropped, taken out and built, no node has two.
pub proof fn law_no_node_has_two_maps(
    maps: Seq<TileGpu>,
    map: TileGpu,
    keep: spec_fn(TileGpu) -> bool,
    i: int,
)
    requires
        each_map_once(maps),
        0 <= i < maps.len(),
    ensures
        each_map_once(with_map(maps, map)),
        each_map_once(maps.filter(keep)),
        each_map_once(maps.remove(i)),
        !has_map(maps.remove(i), maps[i].entity),
{
    lemma_built_once(maps, map);
    lemma_maps_kept_once(maps, keep);
    let less = maps.remove(i);
    if has_map(less, maps[i].entity) {
        let k = choose|k: int| 0 <= k < less.len() && (#[trigger] less[k]).entity == maps[i].entity;
        if k < i {
            assert(maps[k].entity != maps[i].entity);
        } else {
            assert(less[k] == maps[k + 1]);
            assert(maps[i].entity != maps[k + 1].entity);
        }
    }
}

/// Appends the meshes of `pages` to `out`.
fn put_meshes(out: &mut Vec<u64>, pages: &Vec<TilePage>)
    ensures
        final(out)@ == old(out)@ + meshes_of(pages@),
{
    let mut i: usize = 0;
    while i < pages.len()
        invariant
            i <= pages.len(),
            out@ == old(out)@ + meshes_of(pages@).take(i as int),
        decreases pages.len() - i,
    {
        out.push(pages[i].mesh);
        assert(out@ =~= old(out)@ + meshes_of(pages@).take(i + 1));
        i += 1;
    }
    assert(meshes_of(pages@).take(i as int) =~= meshes_of(pages@));
}

impl Tilemaps {
    /// Each node has one map at most.
    pub open spec fn wf(&self) -> bool {
        each_map_once(self.maps@)
    }

    /// No maps.
    pub fn new() -> (out: Self)
        ensures
            out.wf(),
            out.maps@ == Seq::<TileGpu>::empty(),
    {
        Tilemaps { maps: Vec::new() }
    }

    /// The first map of the node, or the number of maps.
    fn find(&self, entity: u64) -> (out: usize)
        ensures
            out == map_place(self.maps@, entity),
            out <= self.maps@.len(),
            out < self.maps@.len() ==> self.maps@[out as int].entity == entity,
    {
        let mut i: usize = 0;
        assert(self.maps@.skip(0) =~= self.maps@);
        while i < self.maps.len() && self.maps[i].entity != entity
            invariant
                i <= self.maps.len(),
                map_place(self.maps@, entity) == i + map_place(
                    self.maps@.skip(i as int),
                    entity,
                ),
            decreases self.maps.len() - i,
        {
            assert(self.maps@.skip(i as int).skip(1) =~= self.maps@.skip(i + 1));
            i += 1;
        }
        i
    }

    /// Drops the maps of nodes that are not among `live`. What comes back are
    /// their meshes, to be given back.
    pub fn drop_gone(&mut self, live: &Vec<u64>) -> (out: Vec<u64>)
        requires
            old(self).wf(),
        ensures
            final(self).wf(),
            final(self).maps@ == old(self).maps@.filter(
                |m: TileGpu| live@.contains(m.entity),
            ),
            out@ == all_meshes(
                old(self).maps@.filter(|m: TileGpu| !live@.contains(m.entity)),
            ),
    {
        let ghost keep = |m: TileGpu| live@.contains(m.entity);
        let ghost drop = |m: TileGpu| !live@.contains(m.entity);
        let ghost all = self.maps@;
        let mut out: Vec<u64> = Vec::new();
        let n: usize = self.maps.len();
        let mut j: usize = 0;
        let mut i: usize = 0;
        proof {
            lemma_filter_none(all, keep);
            lemma_filter_none(all, drop);
            assert(all.skip(0) =~= all);
            assert(self.maps@ =~= all.take(0).filter(keep) + all.skip(0));
        }
        while j < n
            invariant
                n == all.len(),
                keep == (|m: TileGpu| live@.contains(m.entity)),
                drop == (|m: TileGpu| !live@.contains(m.entity)),
                j <= n,
                i == all.take(j as int).filter(keep).len(),
                self.maps@ == all.take(j as int).filter(keep) + all.skip(j as int),
                out@ == all_meshes(all.take(j as int).filter(drop)),
            decreases n - j,
        {
            proof {
                assert(self.maps@.len() == i + (all.len() - j));
                assert(self.maps@[i as int] == all[j as int]);
                lemma_filter_step(all, j as int, keep);
                lemma_filter_step(all, j as int, drop);
            }
            if place_of(live, self.maps[i].entity) < live.len() {
                assert(self.maps@ =~= all.take(j + 1).filter(keep) + all.skip(j + 1));
                i += 1;
            } else {
                let gone: TileGpu = self.maps.remove(i);
                put_meshes(&mut out, &gone.pages);
                proof {
                    assert(self.maps@ =~= all.take(j + 1).filter(keep) + all.skip(j + 1));
                    let gone_all = all.take(j + 1).filter(drop);
                    assert(gone_all.drop_last() =~= all.take(j as int).filter(drop));
                }
            }
            j += 1;
        }
        proof {
            lemma_filter_none(all, keep);
            lemma_filter_none(all, drop);
            assert(self.maps@ =~= all.filter(keep));
            lemma_maps_kept_once(all, keep);
        }
        out
    }

    /// Is the map of the node built from exactly this?
    pub fn is_current(&self, entity: u64, key: &TileKey) -> (out: bool)
        ensures
            out == (map_place(self.maps@, entity) < self.maps@.len() && self.maps@[map_place(
                self.maps@,
                entity,
            )].key@ == key@),
    {
        let i: usize = self.find(entity);
        i < self.maps.len() && signature_matches(&self.maps[i].key, key)
    }

    /// Takes the map of the node out, to be built again. What comes back are the
    /// meshes that it had, to be used again one by one.
    pub fn start_rebuild(&mut self, entity: u64) -> (out: Vec<u64>)
        requires
            old(self).wf(),
        ensures
            final(self).wf(),
            !has_map(final(self).maps@, entity),
            ({
                let i = map_place(old(self).maps@, entity);
                if i < old(self).maps@.len() {
                    &&& final(self).maps@ == old(self).maps@.remove(i)
                    &&& out@ == meshes_of(old(self).maps@[i].pages@)
                } else {
                    &&& final(self).maps@ == old(self).maps@
                    &&& out@ == Seq::<u64>::empty()
                }
            }),
    {
        let i: usize = self.find(entity);
        let mut out: Vec<u64> = Vec::new();
        if i < self.maps.len() {
            let was: TileGpu = self.maps.remove(i);
            put_meshes(&mut out, &was.pages);
            assert(out@ =~= meshes_of(was.pages@));
            proof {
                law_no_node_has_two_maps(old(self).maps@, was, |m: TileGpu| true, i as int);
            }
        } else {
            proof {
                lemma_map_place(self.maps@, entity);
            }
        }
        out
    }

    /// Notes that the map of the node was built. It is the map of the node from now
    /// on, in the place of one that was there.
    pub fn built(&mut self, map: TileGpu)
        requires
            old(self).wf(),
        ensures
            final(self).wf(),
            final(self).maps@ == with_map(old(self).maps@, map),
    {
        proof {
            lemma_built_once(self.maps@, map);
        }
        let i: usize = self.find(map.entity);
        if i < self.maps.len() {
            self.maps.set(i, map);
        } else {
            self.maps.push(map);
        }
    }
}

/// What is to be done to get the mesh of a page into the graphics pass.
#[derive(Clone, Copy, Debug, PartialEq, Eq, Structural)]
pub enum MeshStep {
    /// Use this mesh, which holds it now.
    Use { mesh: u64 },
    /// Give this mesh back, which is too small, and make a new one.
    Replace { mesh: u64, vertices: u32, indices: u32 },
    /// Make a new one.
    Make { vertices: u32, indices: u32 },
}

/// The room that a new mesh has: what it needs, and at least that of one square.
pub open spec fn mesh_room(vertices: u32, indices: u32) -> (u32, u32) {
    (
        if vertices < 4 {
            4
        } else {
            vertices
        },
        if indices < 6 {
            6
        } else {
            indices
        },
    )
}

/// What is to be done for a page of so many vertices and indices: `spare` is a
/// mesh that the map had, and `fits` says whether the page went into it.
pub fn mesh_step(spare: Option<u64>, fits: bool, vertices: u32, indices: u32) -> (out: MeshStep)
    ensures
        out == ({
            let room = mesh_room(vertices, indices);
            match spare {
                Some(mesh) => if fits {
                    MeshStep::Use { mesh }
                } else {
                    MeshStep::Replace { mesh, vertices: room.0, indices: room.1 }
                },
                None => MeshStep::Make { vertices: room.0, indices: room.1 },
            }
        }),
{
    let v: u32 = if vertices < 4 {
        4
    } else {
        vertices
    };
    let i: u32 = if indices < 6 {
        6
    } else {
        indices
    };
    match spare {
        Some(mesh) => if fits {
            MeshStep::Use { mesh }
        } else {
            MeshStep::Replace { mesh, vertices: v, indices: i }
        },
        None => MeshStep::Make { vertices: v, indices: i },
    }
}

/// The image that a page is drawn with: the one that it names, where that is
/// there. The first page falls back on the image of the material; a later page
/// is drawn without one, rather than with another sheet's.
pub open spec fn page_image(
    textures: Map<Seq<char>, u64>,
    page: u32,
    texture: Option<Seq<char>>,
    material: Option<u64>,
) -> Option<u64> {
    if texture is Some && textures.contains_key(texture->Some_0) {
        Some(textures[texture->Some_0])
    } else if page == 0 {
        material
    } else {
        None
    }
}

/// The draws of some pages: the mesh and the image of each that has anything to
/// draw.
pub open spec fn page_draws(
    textures: Map<Seq<char>, u64>,
    pages: Seq<TilePage>,
    material: Option<u64>,
) -> Seq<(u64, Option<u64>)>
    decreases pages.len(),
{
    if pages.len() == 0 {
        seq![]
    } else {
        let front = page_draws(textures, pages.drop_last(), material);
        let p = pages.last();
        if p.empty {
            front
        } else {
            front.push((p.mesh, page_image(textures, p.page, opt_text(p.texture), material)))
        }
    }
}

/// The draws of a map, one for each page that has anything to draw.
pub fn tilemap_draws(
    pages: &Vec<TilePage>,
    textures: &Table<u64>,
    material: Option<u64>,
) -> (out: Vec<(u64, Option<u64>)>)
    requires
        textures.wf(),
    ensures
        out@ == page_draws(textures@, pages@, material),
{
    let mut out: Vec<(u64, Option<u64>)> = Vec::new();
    let mut i: usize = 0;
    while i < pages.len()
        invariant
            i <= pages.len(),
            textures.wf(),
            out@ == page_draws(textures@, pages@.take(i as int), material),
        decreases pages.len() - i,
    {
        assert(pages@.take(i + 1).drop_last() =~= pages@.take(i as int));
        let p: &TilePage = &pages[i];
        if !p.empty {
            let named: Option<u64> = match &p.texture {
                Some(path) => match textures.get(path.as_str()) {
                    Some(id) => Some(*id),
                    None => None,
                },
                None => None,
            };
            let image: Option<u64> = match named {
                Some(id) => Some(id),
                None => if p.page == 0 {
                    material
                } else {
                    None
                },
            };
            out.push((p.mesh, image));
        }
        i += 1;
    }
    assert(pages@.take(i as int) =~= pages@);
    out
}

/// The cell that a sprite shows: none where its sheet is not cut, else its own,
/// and no cell beyond the last.
pub fn sprite_cell(cols: u32, rows: u32, cell: u32) -> (out: Option<u32>)
    requires
        cols * rows <= u32::MAX,
    ensures
        out == if cols * rows > 1 {
            Some(
                if cell < cols * rows {
                    cell
                } else {
                    (cols * rows - 1) as u32
                },
            )
        } else {
            None
        },
{
    let cells: u64 = cols as u64 * rows as u64;
    if cells > 1 {
        if (cell as u64) < cells {
            Some(cell)
        } else {
            Some((cells - 1) as u32)
        }
    } else {
        None
    }
}

/// A map that is built is the map of its node, and the map of every other node is the one it
/// was.
pub proof fn law_a_built_map_is_the_map_of_its_node(maps: Seq<TileGpu>, map: TileGpu, other: u64)
    requires
        each_map_once(maps),
        other != map.entity,
    ensures
        ({
            let now = with_map(maps, map);
            &&& map_place(now, map.entity) < now.len() && now[map_place(now, map.entity)] == map
            &&& has_map(now, other) <==> has_map(maps, other)
            &&& has_map(maps, other) ==> now[map_place(now, other)] == maps[map_place(maps, other)]
            &&& now.len() == maps.len() + if has_map(maps, map.entity) {
                0nat
            } else {
                1nat
            }
        }),
{
    let now = with_map(maps, map);
    let i = map_place(maps, map.entity);
    lemma_map_place(maps, map.entity);
    lemma_map_place(maps, other);
    lemma_map_place(now, map.entity);
    lemma_map_place(now, other);
    lemma_built_once(maps, map);
    let at = if i < maps.len() {
        i
    } else {
        maps.len() as int
    };
    assert(now[at] == map);
    assert(has_map(now, map.entity));
    let k = map_place(now, map.entity);
    assert(k == at);
    if has_map(maps, other) {
        let j = map_place(maps, other);
        assert(now[j] == maps[j]);
        assert(has_map(now, other));
        assert(map_place(now, other) == j);
    }
    if has_map(now, other) {
        let j = map_place(now, other);
        assert(j != at);
        assert(maps[j] == now[j]);
        assert(has_map(maps, other));
    }
}

/// The meshes of maps are those of their pages, all of them.
pub proof fn law_no_mesh_is_forgotten(maps: Seq<TileGpu>, i: int, p: int)
    requires
        0 <= i < maps.len(),
        0 <= p < maps[i].pages@.len(),
    ensures
        all_meshes(maps).contains(maps[i].pages@[p].mesh),
    decreases maps.len(),
{
    let front = all_meshes(maps.drop_last());
    let last = meshes_of(maps.last().pages@);
    if i == maps.len() - 1 {
        assert(last[p] == maps[i].pages@[p].mesh);
        assert(all_meshes(maps)[front.len() + p] == last[p]);
    } else {
        law_no_mesh_is_forgotten(maps.drop_last(), i, p);
        let k = choose|k: int| 0 <= k < front.len() && front[k] == maps[i].pages@[p].mesh;
        assert(all_meshes(maps)[k] == front[k]);
    }
}

/// No mesh is given back that belongs to none of the maps.
pub proof fn law_no_mesh_is_made_up(maps: Seq<TileGpu>, k: int)
    requires
        0 <= k < all_meshes(maps).len(),
    ensures
        exists|i: int|
            0 <= i < maps.len() && meshes_of((#[trigger] maps[i]).pages@).contains(
                all_meshes(maps)[k],
            ),
    decreases maps.len(),
{
    let less = maps.drop_last();
    let front = all_meshes(less);
    let last = meshes_of(maps.last().pages@);
    if k < front.len() {
        law_no_mesh_is_made_up(less, k);
        let i = choose|i: int|
            0 <= i < less.len() && meshes_of((#[trigger] less[i]).pages@).contains(front[k]);
        assert(maps[i] == less[i]);
    } else {
        assert(last[k - front.len()] == all_meshes(maps)[k]);
        assert(maps[maps.len() - 1] == maps.last());
    }
}

/// A new mesh holds what it is made for, and one square at least; it is no larger than that.
pub proof fn law_a_mesh_has_room(vertices: u32, indices: u32)
    ensures
        mesh_room(vertices, indices).0 >= vertices,
        mesh_room(vertices, indices).1 >= indices,
        mesh_room(vertices, indices).0 == vertices || mesh_room(vertices, indices).0 == 4,
        mesh_room(vertices, indices).1 == indices || mesh_room(vertices, indices).1 == 6,
        mesh_room(vertices, indices).0 >= 4,
        mesh_room(vertices, indices).1 >= 6,
{
}

/// A page is drawn with the image that it names, where that is there. Without it the first
/// page has that of the material and a later page none, so no page is ever drawn with
/// another's sheet.
pub proof fn law_a_page_is_drawn_with_its_own_image(
    textures: Map<Seq<char>, u64>,
    page: u32,
    name: Seq<char>,
    material: Option<u64>,
)
    ensures
        textures.contains_key(name) ==> page_image(textures, page, Some(name), material) == Some(
            textures[name],
        ),
        !textures.contains_key(name) ==> page_image(textures, page, Some(name), material)
            == page_image(textures, page, None, material),
        page_image(textures, 0, None, material) == material,
        page > 0 ==> page_image(textures, page, None, material) is None,
{
}

/// Every page that has anything to draw is drawn once, in order, by its own mesh; a page that
/// has not is not drawn.
pub proof fn law_a_page_is_drawn_where_it_has_anything(
    textures: Map<Seq<char>, u64>,
    pages: Seq<TilePage>,
    p: TilePage,
    material: Option<u64>,
)
    ensures
        ({
            let before = page_draws(textures, pages, material);
            let after = page_draws(textures, pages.push(p), material);
            &&& before.is_prefix_of(after)
            &&& p.empty ==> after == before
            &&& !p.empty ==> after.len() == before.len() + 1 && after.last().0 == p.mesh
                && after.last().1 == page_image(textures, p.page, opt_text(p.texture), material)
        }),
{
    assert(pages.push(p).drop_last() =~= pages);
}

// ---- what is in front of what ----------------------------------------------

/// A node that takes part in sorting. Its height and its place across are
/// numbers that stand in the order of its coordinates.
#[derive(Clone, Copy, Debug, PartialEq, Eq, Structural)]
pub struct SortNode {
    pub entity: u64,
    /// The place at which it was made among the nodes. No two have the same.
    pub index: u32,
    /// The rank of its sorting layer: a greater rank is further to the front.
    pub rank: u32,
    /// Its order within the layer: a greater order is further to the front.
    pub order: i32,
    pub y: i64,
    pub x: i64,
    /// Does it sort by its height among those of its order?
    pub by_y: bool,
}

/// What a node says of its sorting: the rank of the layer that it names, its
/// order there, and whether it sorts by its height.
#[derive(Clone, Copy, Debug, PartialEq, Eq, Structural)]
pub struct Sorting {
    pub rank: u32,
    pub order: i32,
    pub by_y: bool,
}

/// What is known of a node that may take part in sorting.
#[derive(Clone, Copy, Debug, PartialEq, Eq, Structural)]
pub struct SortInfo {
    pub entity: u64,
    pub index: u32,
    /// What it says of its sorting.
    pub sorting: Option<Sorting>,
    /// Is it one of the flat kinds?
    pub flat: bool,
    /// Is it drawn?
    pub drawn: bool,
    pub y: i64,
    pub x: i64,
}

/// What a node is drawn as, as far as sorting goes.
#[derive(Clone, Copy, Debug, PartialEq, Eq, Structural)]
pub enum FlatKind {
    Tilemap,
    SpriteBatch,
    Sprite,
    Other,
}

/// Is this one of the flat kinds, which take part in sorting whether or not they
/// name a layer?
pub fn is_flat_2d(kind: FlatKind) -> (out: bool)
    ensures
        out == (kind != FlatKind::Other),
{
    match kind {
        FlatKind::Tilemap | FlatKind::SpriteBatch | FlatKind::Sprite => true,
        FlatKind::Other => false,
    }
}

/// How a node takes part in sorting. One that is not drawn does not. One that is
/// flat and names no layer is on the default layer, at order 0.
pub open spec fn sort_node(n: SortInfo, default_rank: u32) -> Option<SortNode> {
    if !n.drawn {
        None
    } else {
        match n.sorting {
            Some(Sorting { rank, order, by_y }) => Some(
                SortNode {
                    entity: n.entity,
                    index: n.index,
                    rank,
                    order,
                    y: n.y,
                    x: n.x,
                    by_y,
                },
            ),
            None => if n.flat {
                Some(
                    SortNode {
                        entity: n.entity,
                        index: n.index,
                        rank: default_rank,
                        order: 0,
                        y: n.y,
                        x: n.x,
                        by_y: false,
                    },
                )
            } else {
                None
            },
        }
    }
}

/// The nodes that take part in sorting.
pub open spec fn sort_nodes_of(nodes: Seq<SortInfo>, default_rank: u32) -> Seq<SortNode>
    decreases nodes.len(),
{
    if nodes.len() == 0 {
        seq![]
    } else {
        let front = sort_nodes_of(nodes.drop_last(), default_rank);
        match sort_node(nodes.last(), default_rank) {
            Some(n) => front.push(n),
            None => front,
        }
    }
}

/// The nodes that take part in sorting.
pub fn sort_nodes(nodes: &Vec<SortInfo>, default_rank: u32) -> (out: Vec<SortNode>)
    ensures
        out@ == sort_nodes_of(nodes@, default_rank),
{
    let mut out: Vec<SortNode> = Vec::new();
    let mut i: usize = 0;
    while i < nodes.len()
        invariant
            i <= nodes.len(),
            out@ == sort_nodes_of(nodes@.take(i as int), default_rank),
        decreases nodes.len() - i,
    {
        assert(nodes@.take(i + 1).drop_last() =~= nodes@.take(i as int));
        let n: SortInfo = nodes[i];
        if n.drawn {
            match n.sorting {
                Some(Sorting { rank, order, by_y }) => {
                    out.push(
                        SortNode {
                            entity: n.entity,
                            index: n.index,
                            rank,
                            order,
                            y: n.y,
                            x: n.x,
                            by_y,
                        },
                    );
                },
                None => {
                    if n.flat {
                        out.push(
                            SortNode {
                                entity: n.entity,
                                index: n.index,
                                rank: default_rank,
                                order: 0,
                                y: n.y,
                                x: n.x,
                                by_y: false,
                            },
                        );
                    }
                },
            }
        }
        i += 1;
    }
    assert(nodes@.take(i as int) =~= nodes@);
    out
}

/// Is `a` behind `b`, which is on the same layer? By a smaller order; at one
/// order, by standing higher; at one height, by standing further left; and in
/// one place, by having been made earlier.
pub open spec fn is_behind(a: SortNode, b: SortNode) -> bool {
    ||| a.order < b.order
    ||| a.order == b.order && a.y > b.y
    ||| a.order == b.order && a.y == b.y && a.x < b.x
    ||| a.order == b.order && a.y == b.y && a.x == b.x && a.index < b.index
}

/// Is `a` behind `b`, which is on the same layer?
fn behind(a: &SortNode, b: &SortNode) -> (out: bool)
    ensures
        out == is_behind(*a, *b),
{
    if a.order != b.order {
        a.order < b.order
    } else if a.y != b.y {
        a.y > b.y
    } else if a.x != b.x {
        a.x < b.x
    } else {
        a.index < b.index
    }
}

/// How many of `nodes` are on the layer of that rank.
pub open spec fn layer_size(nodes: Seq<SortNode>, rank: u32) -> nat
    decreases nodes.len(),
{
    if nodes.len() == 0 {
        0
    } else {
        layer_size(nodes.drop_last(), rank) + if nodes.last().rank == rank {
            1nat
        } else {
            0nat
        }
    }
}

/// How many of `nodes` are on the layer of `n` and behind it.
pub open spec fn place_in_layer(nodes: Seq<SortNode>, n: SortNode) -> nat
    decreases nodes.len(),
{
    if nodes.len() == 0 {
        0
    } else {
        place_in_layer(nodes.drop_last(), n) + if nodes.last().rank == n.rank && is_behind(
            nodes.last(),
            n,
        ) {
            1nat
        } else {
            0nat
        }
    }
}

/// Does any node of the layer sort by height?
pub open spec fn layer_by_y(nodes: Seq<SortNode>, rank: u32) -> bool {
    exists|i: int| 0 <= i < nodes.len() && (#[trigger] nodes[i]).rank == rank && nodes[i].by_y
}

/// The depth at which a node is drawn.
#[derive(Clone, Copy, Debug, PartialEq, Eq, Structural)]
pub enum Depth {
    /// That of its layer and its order.
    Fixed { rank: u32, order: i32 },
    /// That of place `place` among the `of` of its layer.
    Ranked { rank: u32, place: usize, of: usize },
}

/// The depth at which a node is drawn. A layer in which nothing sorts by height,
/// and one with a single node, keeps the fixed steps.
pub open spec fn depth_of(nodes: Seq<SortNode>, n: SortNode) -> Depth {
    if layer_by_y(nodes, n.rank) && layer_size(nodes, n.rank) != 1 {
        Depth::Ranked {
            rank: n.rank,
            place: place_in_layer(nodes, n) as usize,
            of: layer_size(nodes, n.rank) as usize,
        }
    } else {
        Depth::Fixed { rank: n.rank, order: n.order }
    }
}

/// The sizes never exceed the number of nodes.
proof fn lemma_layer_bounds(nodes: Seq<SortNode>, n: SortNode)
    ensures
        place_in_layer(nodes, n) <= layer_size(nodes, n.rank) <= nodes.len(),
    decreases nodes.len(),
{
    if nodes.len() > 0 {
        lemma_layer_bounds(nodes.drop_last(), n);
    }
}

/// The depth at which each node is drawn.
pub fn depths(nodes: &Vec<SortNode>) -> (out: Vec<Depth>)
    ensures
        out@.len() == nodes@.len(),
        forall|i: int| 0 <= i < nodes@.len() ==> #[trigger] out@[i] == depth_of(nodes@, nodes@[i]),
{
    let mut out: Vec<Depth> = Vec::new();
    let mut i: usize = 0;
    while i < nodes.len()
        invariant
            i <= nodes.len(),
            out@.len() == i,
            forall|k: int| 0 <= k < i ==> #[trigger] out@[k] == depth_of(nodes@, nodes@[k]),
        decreases nodes.len() - i,
    {
        let n: SortNode = nodes[i];
        let mut size: usize = 0;
        let mut place: usize = 0;
        let mut by_y: bool = false;
        let mut j: usize = 0;
        while j < nodes.len()
            invariant
                j <= nodes.len(),
                size <= j,
                place <= j,
                size == layer_size(nodes@.take(j as int), n.rank),
                place == place_in_layer(nodes@.take(j as int), n),
                by_y == layer_by_y(nodes@.take(j as int), n.rank),
            decreases nodes.len() - j,
        {
            let front: &SortNode = &nodes[j];
            proof {
                let less = nodes@.take(j as int);
                let more = nodes@.take(j + 1);
                assert(more.drop_last() =~= less);
                if layer_by_y(less, n.rank) {
                    let k = choose|k: int|
                        0 <= k < less.len() && (#[trigger] less[k]).rank == n.rank && less[k].by_y;
                    assert(more[k] == less[k]);
                }
                if layer_by_y(more, n.rank) {
                    let k = choose|k: int|
                        0 <= k < more.len() && (#[trigger] more[k]).rank == n.rank && more[k].by_y;
                    if k < j {
                        assert(less[k] == more[k]);
                    }
                }
                assert(more[j as int] == *front);
            }
            if front.rank == n.rank {
                size += 1;
                if behind(front, &n) {
                    place += 1;
                }
                if front.by_y {
                    by_y = true;
                }
            }
            j += 1;
        }
        assert(nodes@.take(j as int) =~= nodes@);
        if by_y && size != 1 {
            out.push(Depth::Ranked { rank: n.rank, place, of: size });
        } else {
            out.push(Depth::Fixed { rank: n.rank, order: n.order });
        }
        i += 1;
    }
    out
}

/// A node whose layer keeps some of the camera's movement.
#[derive(Clone, Copy, Debug, PartialEq, Eq)]
pub struct Parallaxed {
    pub entity: u64,
    /// Does it move with the world after all?
    pub identity: bool,
    /// How far it is moved across the picture for this camera, as the bits of the two
    /// numbers.
    pub shift: (u64, u64),
}

/// How far a node is drawn from where it stands.
#[derive(Clone, Copy, Debug, PartialEq, Eq)]
pub struct DrawOffset {
    pub entity: u64,
    /// Across the picture.
    pub shift: Option<(u64, u64)>,
    /// Through the stack.
    pub depth: Option<Depth>,
}

/// How far a node is moved across the picture, where it is.
pub open spec fn shift_of(moved: Seq<Parallaxed>, entity: u64) -> Option<(u64, u64)>
    decreases moved.len(),
{
    if moved.len() == 0 {
        None
    } else if moved.last().entity == entity && !moved.last().identity {
        Some(moved.last().shift)
    } else {
        shift_of(moved.drop_last(), entity)
    }
}

/// Is a node among those that are sorted?
pub open spec fn is_sorted(nodes: Seq<SortNode>, entity: u64) -> bool {
    exists|i: int| 0 <= i < nodes.len() && (#[trigger] nodes[i]).entity == entity
}

/// The nodes that are moved across the picture and not sorted.
pub open spec fn only_shifted(nodes: Seq<SortNode>, moved: Seq<Parallaxed>) -> Seq<DrawOffset>
    decreases moved.len(),
{
    if moved.len() == 0 {
        seq![]
    } else {
        let rest = only_shifted(nodes, moved.drop_last());
        let p = moved.last();
        if p.identity || is_sorted(nodes, p.entity) {
            rest
        } else {
            rest.push(DrawOffset { entity: p.entity, shift: Some(p.shift), depth: None })
        }
    }
}

/// How far the node at a place of the sorted ones is drawn from where it stands.
pub open spec fn sorted_offset(
    nodes: Seq<SortNode>,
    moved: Seq<Parallaxed>,
    i: int,
) -> DrawOffset {
    DrawOffset {
        entity: nodes[i].entity,
        shift: shift_of(moved, nodes[i].entity),
        depth: Some(depth_of(nodes, nodes[i])),
    }
}

/// How far each node is drawn from where it stands, as one camera sees it: first
/// those that are sorted, then those that are only moved across.
pub open spec fn offsets_of(nodes: Seq<SortNode>, moved: Seq<Parallaxed>) -> Seq<DrawOffset> {
    Seq::new(nodes.len(), |i: int| sorted_offset(nodes, moved, i)) + only_shifted(nodes, moved)
}

/// How far a node is moved across the picture, where it is.
fn find_shift(moved: &Vec<Parallaxed>, entity: u64) -> (out: Option<(u64, u64)>)
    ensures
        out == shift_of(moved@, entity),
{
    let mut out: Option<(u64, u64)> = None;
    let mut i: usize = 0;
    while i < moved.len()
        invariant
            i <= moved.len(),
            out == shift_of(moved@.take(i as int), entity),
        decreases moved.len() - i,
    {
        assert(moved@.take(i + 1).drop_last() =~= moved@.take(i as int));
        if moved[i].entity == entity && !moved[i].identity {
            out = Some(moved[i].shift);
        }
        i += 1;
    }
    assert(moved@.take(i as int) =~= moved@);
    out
}

/// Is a node among those that are sorted?
fn find_sorted(nodes: &Vec<SortNode>, entity: u64) -> (out: bool)
    ensures
        out == is_sorted(nodes@, entity),
{
    let mut i: usize = 0;
    while i < nodes.len()
        invariant
            i <= nodes.len(),
            forall|k: int| 0 <= k < i ==> (#[trigger] nodes@[k]).entity != entity,
        decreases nodes.len() - i,
    {
        if nodes[i].entity == entity {
            assert(nodes@[i as int].entity == entity);
            return true;
        }
        i += 1;
    }
    false
}

/// How far each node is drawn from where it stands, as one camera sees it. `moved`
/// are the nodes that keep some of the camera's movement; where the camera is says
/// nothing of how nodes are stacked.
pub fn draw_offsets(nodes: &Vec<SortNode>, moved: &Vec<Parallaxed>) -> (out: Vec<DrawOffset>)
    ensures
        out@ == offsets_of(nodes@, moved@),
{
    let stack: Vec<Depth> = depths(nodes);
    let mut out: Vec<DrawOffset> = Vec::new();
    let mut i: usize = 0;
    while i < nodes.len()
        invariant
            i <= nodes.len(),
            stack@.len() == nodes@.len(),
            forall|k: int|
                0 <= k < nodes@.len() ==> #[trigger] stack@[k] == depth_of(nodes@, nodes@[k]),
            out@ == Seq::new(i as nat, |k: int| sorted_offset(nodes@, moved@, k)),
        decreases nodes.len() - i,
    {
        out.push(
            DrawOffset {
                entity: nodes[i].entity,
                shift: find_shift(moved, nodes[i].entity),
                depth: Some(stack[i]),
            },
        );
        i += 1;
        assert(out@ =~= Seq::new(i as nat, |k: int| sorted_offset(nodes@, moved@, k)));
    }
    let ghost first = out@;
    assert(out@ =~= first + only_shifted(nodes@, moved@.take(0)));
    let mut j: usize = 0;
    while j < moved.len()
        invariant
            j <= moved.len(),
            out@ == first + only_shifted(nodes@, moved@.take(j as int)),
        decreases moved.len() - j,
    {
        let p: Parallaxed = moved[j];
        assert(moved@.take(j + 1).drop_last() =~= moved@.take(j as int));
        if !p.identity && !find_sorted(nodes, p.entity) {
            out.push(DrawOffset { entity: p.entity, shift: Some(p.shift), depth: None });
            assert(out@ =~= first + only_shifted(nodes@, moved@.take(j + 1)));
        }
        j += 1;
    }
    assert(moved@.take(j as int) =~= moved@);
    out
}

/// Do two cameras look at the same nodes? They may move them differently.
pub open spec fn same_scene(a: Seq<Parallaxed>, b: Seq<Parallaxed>) -> bool {
    a.len() == b.len() && forall|i: int|
        #![trigger a[i]]
        #![trigger b[i]]
        0 <= i < a.len() ==> a[i].entity == b[i].entity && a[i].identity == b[i].identity
}

proof fn lemma_same_nodes_shift(
    nodes: Seq<SortNode>,
    a: Seq<Parallaxed>,
    b: Seq<Parallaxed>,
    entity: u64,
)
    requires
        same_scene(a, b),
    ensures
        shift_of(a, entity) is Some <==> shift_of(b, entity) is Some,
        only_shifted(nodes, a).len() == only_shifted(nodes, b).len(),
        forall|i: int|
            0 <= i < only_shifted(nodes, a).len() ==> {
                &&& (#[trigger] only_shifted(nodes, a)[i]).entity == only_shifted(nodes, b)[i].entity
                &&& only_shifted(nodes, a)[i].depth == only_shifted(nodes, b)[i].depth
                &&& only_shifted(nodes, a)[i].shift is Some
                &&& only_shifted(nodes, b)[i].shift is Some
            },
    decreases a.len(),
{
    if a.len() > 0 {
        lemma_same_nodes_shift(nodes, a.drop_last(), b.drop_last(), entity);
        assert(a[a.len() - 1].entity == b[b.len() - 1].entity);
        let (ra, rb) = (only_shifted(nodes, a.drop_last()), only_shifted(nodes, b.drop_last()));
        let (xa, xb) = (only_shifted(nodes, a), only_shifted(nodes, b));
        assert forall|i: int| 0 <= i < xa.len() implies {
            &&& (#[trigger] xa[i]).entity == xb[i].entity
            &&& xa[i].depth == xb[i].depth
            &&& xa[i].shift is Some
            &&& xb[i].shift is Some
        } by {
            if i < ra.len() {
                assert(ra[i].entity == rb[i].entity);
                assert(xa[i] == ra[i] && xb[i] == rb[i]);
            }
        }
    }
}

/// Two cameras never disagree about what is in front of what: they draw the same
/// nodes, each at the same depth, and move the same ones across, however far.
pub proof fn law_two_cameras_agree_on_depth(
    nodes: Seq<SortNode>,
    a: Seq<Parallaxed>,
    b: Seq<Parallaxed>,
)
    requires
        same_scene(a, b),
    ensures
        offsets_of(nodes, a).len() == offsets_of(nodes, b).len(),
        forall|i: int|
            0 <= i < offsets_of(nodes, a).len() ==> {
                &&& (#[trigger] offsets_of(nodes, a)[i]).entity == offsets_of(nodes, b)[i].entity
                &&& offsets_of(nodes, a)[i].depth == offsets_of(nodes, b)[i].depth
                &&& offsets_of(nodes, a)[i].shift is Some <==> offsets_of(nodes, b)[i].shift is Some
            },
{
    lemma_same_nodes_shift(nodes, a, b, 0);
    let (xa, xb) = (offsets_of(nodes, a), offsets_of(nodes, b));
    assert forall|i: int| 0 <= i < xa.len() implies {
        &&& (#[trigger] xa[i]).entity == xb[i].entity
        &&& xa[i].depth == xb[i].depth
        &&& xa[i].shift is Some <==> xb[i].shift is Some
    } by {
        if i < nodes.len() {
            lemma_same_nodes_shift(nodes, a, b, nodes[i].entity);
        } else {
            let k = i - nodes.len();
            assert(xa[i] == only_shifted(nodes, a)[k]);
            assert(xb[i] == only_shifted(nodes, b)[k]);
        }
    }
}

/// A node that moves with the world is moved across by no camera, and one that keeps
/// some of a camera's movement is stacked as it would be without.
pub proof fn law_shift_and_depth_are_apart(
    nodes: Seq<SortNode>,
    moved: Seq<Parallaxed>,
    i: int,
)
    requires
        0 <= i < nodes.len(),
    ensures
        offsets_of(nodes, moved)[i].depth == offsets_of(nodes, seq![])[i].depth,
        (forall|k: int|
            0 <= k < moved.len() && (#[trigger] moved[k]).entity == nodes[i].entity
                ==> moved[k].identity) ==> offsets_of(nodes, moved)[i].shift is None,
{
    lemma_no_shift(moved, nodes[i].entity);
}

proof fn lemma_no_shift(moved: Seq<Parallaxed>, entity: u64)
    ensures
        (forall|k: int|
            0 <= k < moved.len() && (#[trigger] moved[k]).entity == entity ==> moved[k].identity)
            ==> shift_of(moved, entity) is None,
    decreases moved.len(),
{
    if moved.len() > 0 {
        lemma_no_shift(moved.drop_last(), entity);
        if forall|k: int|
            0 <= k < moved.len() && (#[trigger] moved[k]).entity == entity ==> moved[k].identity {
            assert forall|k: int|
                0 <= k < moved.drop_last().len() && (#[trigger] moved.drop_last()[k]).entity
                    == entity implies moved.drop_last()[k].identity by {
                assert(moved[k].entity == entity);
            }
            assert(moved[moved.len() - 1] == moved.last());
        }
    }
}

/// What is behind something that is behind a node is behind that node.
proof fn lemma_places_grow(nodes: Seq<SortNode>, a: SortNode, b: SortNode)
    requires
        a.rank == b.rank,
        is_behind(a, b),
    ensures
        place_in_layer(nodes, a) <= place_in_layer(nodes, b),
        nodes.contains(a) ==> place_in_layer(nodes, a) < place_in_layer(nodes, b),
    decreases nodes.len(),
{
    if nodes.len() > 0 {
        let front = nodes.drop_last();
        lemma_places_grow(front, a, b);
        if nodes.contains(a) && nodes.last() != a {
            let k = choose|k: int| 0 <= k < nodes.len() && nodes[k] == a;
            assert(front[k] == a);
        }
    }
}

/// What is behind comes out behind: of two nodes of one layer, the one that is
/// behind gets the lower place. So a lower node is in front of a higher one of
/// the same order, a greater order is in front whatever the heights are, and two
/// nodes never get the same place.
pub proof fn law_behind_comes_out_behind(nodes: Seq<SortNode>, i: int, j: int)
    requires
        0 <= i < nodes.len(),
        0 <= j < nodes.len(),
        nodes[i].rank == nodes[j].rank,
        is_behind(nodes[i], nodes[j]),
    ensures
        place_in_layer(nodes, nodes[i]) < place_in_layer(nodes, nodes[j]),
{
    lemma_places_grow(nodes, nodes[i], nodes[j]);
}

/// Order beats height, and height beats the place across.
pub proof fn law_order_wins_over_height(a: SortNode, b: SortNode)
    ensures
        a.order < b.order ==> is_behind(a, b),
        a.order == b.order && a.y > b.y ==> is_behind(a, b),
        a.order == b.order && a.y == b.y && a.x < b.x ==> is_behind(a, b),
{
}

/// Two nodes that stand in different places, or have different orders, stack the
/// same way whenever they were made.
pub proof fn law_the_stack_does_not_depend_on_when_nodes_were_made(
    a: SortNode,
    b: SortNode,
    i: u32,
    j: u32,
)
    requires
        a.order != b.order || a.y != b.y || a.x != b.x,
    ensures
        is_behind(SortNode { index: i, ..a }, SortNode { index: j, ..b }) == is_behind(a, b),
{
}

/// Any two nodes that were made at different times are one behind the other, and
/// never both ways.
pub proof fn law_the_stack_is_strict(a: SortNode, b: SortNode)
    requires
        a.index != b.index,
    ensures
        is_behind(a, b) != is_behind(b, a),
{
}

/// Every place is one of those of its layer, so a node never leaves its layer.
pub proof fn law_a_node_stays_in_its_layer(nodes: Seq<SortNode>, i: int)
    requires
        0 <= i < nodes.len(),
    ensures
        place_in_layer(nodes, nodes[i]) < layer_size(nodes, nodes[i].rank),
        match depth_of(nodes, nodes[i]) {
            Depth::Fixed { rank, .. } => rank == nodes[i].rank,
            Depth::Ranked { rank, .. } => rank == nodes[i].rank,
        },
{
    lemma_own_place(nodes, nodes[i]);
}

/// A node of the list is not behind itself, so fewer than all are behind it.
proof fn lemma_own_place(nodes: Seq<SortNode>, n: SortNode)
    ensures
        place_in_layer(nodes, n) <= layer_size(nodes, n.rank),
        nodes.contains(n) ==> place_in_layer(nodes, n) < layer_size(nodes, n.rank),
    decreases nodes.len(),
{
    if nodes.len() > 0 {
        let front = nodes.drop_last();
        lemma_own_place(front, n);
        if nodes.contains(n) && nodes.last() != n {
            let k = choose|k: int| 0 <= k < nodes.len() && nodes[k] == n;
            assert(front[k] == n);
        }
    }
}

/// A node takes part in sorting exactly where it is drawn and either says how it sorts or is
/// flat. It keeps its place; what it says of its layer, order and height is what counts, and
/// what it does not say is the default layer, order nothing, and no sorting by height.
pub proof fn law_a_node_sorts_as_it_says(n: SortInfo, default_rank: u32)
    ensures
        sort_node(n, default_rank) is Some <==> n.drawn && (n.sorting is Some || n.flat),
        sort_node(n, default_rank) matches Some(s) ==> s.entity == n.entity && s.index == n.index
            && s.x == n.x && s.y == n.y,
        sort_node(n, default_rank) matches Some(s) ==> (n.sorting matches Some(says) ==> s.rank
            == says.rank && s.order == says.order && s.by_y == says.by_y),
        sort_node(n, default_rank) matches Some(s) ==> (n.sorting is None ==> s.rank == default_rank
            && s.order == 0 && !s.by_y),
{
}

/// Every node that takes part in sorting is there, in the order in which they came, and no
/// other is.
pub proof fn law_all_that_sort_are_there(nodes: Seq<SortInfo>, n: SortInfo, default_rank: u32)
    ensures
        ({
            let before = sort_nodes_of(nodes, default_rank);
            let after = sort_nodes_of(nodes.push(n), default_rank);
            &&& before.is_prefix_of(after)
            &&& sort_node(n, default_rank) is None ==> after == before
            &&& sort_node(n, default_rank) is Some ==> after.len() == before.len() + 1 && Some(
                after.last(),
            ) == sort_node(n, default_rank)
        }),
{
    assert(nodes.push(n).drop_last() =~= nodes);
}

/// A layer is stacked by places exactly where some node of it sorts by height and it has more
/// than one; else each node of it stands at its order.
pub proof fn law_a_layer_is_stacked_where_one_sorts_by_height(nodes: Seq<SortNode>, i: int)
    requires
        0 <= i < nodes.len() <= usize::MAX,
    ensures
        depth_of(nodes, nodes[i]) is Ranked <==> layer_size(nodes, nodes[i].rank) > 1 && exists|
            j: int|
            0 <= j < nodes.len() && (#[trigger] nodes[j]).rank == nodes[i].rank && nodes[j].by_y,
        depth_of(nodes, nodes[i]) matches Depth::Ranked { place, of, .. } ==> place < of && of
            == layer_size(nodes, nodes[i].rank) && place == place_in_layer(nodes, nodes[i]),
        depth_of(nodes, nodes[i]) matches Depth::Fixed { order, .. } ==> order == nodes[i].order,
{
    assert(nodes.contains(nodes[i]));
    lemma_own_place(nodes, nodes[i]);
    lemma_layer_bounds(nodes, nodes[i]);
}

/// A layer is as large as the nodes on it are many.
pub proof fn law_a_layer_counts_its_nodes(nodes: Seq<SortNode>, n: SortNode, rank: u32)
    ensures
        layer_size(nodes.push(n), rank) == layer_size(nodes, rank) + if n.rank == rank {
            1nat
        } else {
            0nat
        },
        layer_size(Seq::empty(), rank) == 0,
{
    assert(nodes.push(n).drop_last() =~= nodes);
}

/// A node is moved across by as much as is said of it last, unless it moves with the world.
pub proof fn law_a_node_is_moved_as_is_said_of_it(moved: Seq<Parallaxed>, p: Parallaxed, e: u64)
    ensures
        !p.identity && p.entity == e ==> shift_of(moved.push(p), e) == Some(p.shift),
        p.identity || p.entity != e ==> shift_of(moved.push(p), e) == shift_of(moved, e),
        shift_of(Seq::empty(), e) is None,
{
    assert(moved.push(p).drop_last() =~= moved);
}

/// What is only moved across is sorted nowhere and keeps its depth; everything that is moved
/// and not sorted is there.
pub proof fn law_what_is_not_sorted_is_only_moved(
    nodes: Seq<SortNode>,
    moved: Seq<Parallaxed>,
    p: Parallaxed,
)
    ensures
        ({
            let before = only_shifted(nodes, moved);
            let after = only_shifted(nodes, moved.push(p));
            &&& before.is_prefix_of(after)
            &&& p.identity || is_sorted(nodes, p.entity) ==> after == before
            &&& !p.identity && !is_sorted(nodes, p.entity) ==> after.len() == before.len() + 1
                && after.last().entity == p.entity && after.last().shift == Some(p.shift)
                && after.last().depth is None
        }),
{
    assert(moved.push(p).drop_last() =~= moved);
}

/// Every node that is sorted is drawn at its own depth, moved as is said of it, in its own
/// place; behind them come those that are only moved.
pub proof fn law_every_sorted_node_is_drawn(nodes: Seq<SortNode>, moved: Seq<Parallaxed>, i: int)
    requires
        0 <= i < nodes.len(),
    ensures
        ({
            let o = offsets_of(nodes, moved);
            &&& o[i].entity == nodes[i].entity
            &&& o[i].depth == Some(depth_of(nodes, nodes[i]))
            &&& o[i].shift == shift_of(moved, nodes[i].entity)
            &&& o.skip(nodes.len() as int) == only_shifted(nodes, moved)
        }),
{
    assert(offsets_of(nodes, moved).skip(nodes.len() as int) =~= only_shifted(nodes, moved));
}

/// A spare mesh is used where what is drawn fits into it, and replaced where not; one is made
/// only where there is no spare. What is made has the room that is needed.
pub proof fn law_a_spare_mesh_is_used_first(
    spare: Option<u64>,
    fits: bool,
    vertices: u32,
    indices: u32,
    out: MeshStep,
)
    requires
        call_ensures(mesh_step, (spare, fits, vertices, indices), out),
    ensures
        out is Make <==> spare is None,
        out is Use <==> spare is Some && fits,
        out matches MeshStep::Use { mesh } ==> spare == Some(mesh),
        out matches MeshStep::Replace { mesh, vertices: v, indices: n } ==> spare == Some(mesh)
            && (v, n) == mesh_room(vertices, indices),
        out matches MeshStep::Make { vertices: v, indices: n } ==> (v, n) == mesh_room(
            vertices,
            indices,
        ),
{
}

/// A sheet of one cell has none to choose. Of more, the chosen one is drawn where there is such a
/// cell, and the last where not.
pub proof fn law_a_cell_is_on_its_sheet(cols: u32, rows: u32, cell: u32, out: Option<u32>)
    requires
        cols * rows <= u32::MAX,
        call_ensures(sprite_cell, (cols, rows, cell), out),
    ensures
        out is Some <==> cols * rows > 1,
        out matches Some(c) ==> c < cols * rows && c <= cell,
        out matches Some(c) ==> (cell < cols * rows ==> c == cell),
        out matches Some(c) ==> (cell >= cols * rows ==> c == cols * rows - 1),
{
}

/// Maps, sprites and batches of them are flat, and nothing else is.
pub proof fn law_sprites_and_maps_are_flat(kind: FlatKind, out: bool)
    requires
        call_ensures(is_flat_2d, (kind,), out),
    ensures
        out <==> kind is Tilemap || kind is Sprite || kind is SpriteBatch,
{
}

/// A mesh is kept exactly where nothing that it was made from has changed.
pub proof fn law_any_change_makes_another_mesh(a: &TileKey, b: &TileKey, out: bool)
    requires
        call_ensures(signature_matches, (a, b), out),
    ensures
        out <==> a.cols == b.cols && a.rows == b.rows && a.tile_bits == b.tile_bits && a.data@
            == b.data@ && a.texel_bits == b.texel_bits && a.anim_step == b.anim_step
            && sheet_models(a.pages@) == sheet_models(b.pages@),
{
}

/// Maps whose nodes are gone are dropped, and no other.
pub proof fn law_maps_go_with_their_nodes(s: &mut Tilemaps, live: &Vec<u64>, out: Vec<u64>, m: TileGpu)
    requires
        old(s).wf(),
        call_ensures(Tilemaps::drop_gone, (s, live), out),
    ensures
        final(s).maps@.contains(m) <==> old(s).maps@.contains(m) && live@.contains(m.entity),
{
    lemma_filter_holds(old(s).maps@, |m: TileGpu| live@.contains(m.entity), m);
}

/// A map that is built anew is not there while it is built; every other stays, and what it was
/// drawn with is handed back.
pub proof fn law_a_map_goes_while_it_is_rebuilt(s: &mut Tilemaps, entity: u64, out: Vec<u64>, other: u64)
    requires
        old(s).wf(),
        call_ensures(Tilemaps::start_rebuild, (s, entity), out),
        other != entity,
    ensures
        !has_map(final(s).maps@, entity),
        has_map(old(s).maps@, other) ==> has_map(final(s).maps@, other),
        !has_map(old(s).maps@, entity) ==> final(s).maps@ == old(s).maps@ && out@.len() == 0,
{
    let was = old(s).maps@;
    let now = final(s).maps@;
    lemma_map_place(was, entity);
    let p = map_place(was, entity);
    if has_map(was, other) {
        let k = choose|k: int| 0 <= k < was.len() && (#[trigger] was[k]).entity == other;
        if p < was.len() {
            let j = if k < p {
                k
            } else {
                k - 1
            };
            assert(now[j] == was[k]);
        }
    }
}

} // verus!
