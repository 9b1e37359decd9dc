//! The rendering settings of a project that imitate older machines: which rows
//! are shown, which of them can be used, and what an edit of one comes to.

use crate::text::{copy_of, joined};
use vstd::prelude::*;

verus! {

/// The settings of a project that imitate older machines. `jitter` holds the bits
/// of a number: how many steps the grid has to which corners snap, 0 for none.
#[derive(Clone, Copy, Debug, PartialEq, Eq, Structural)]
pub struct RetroSettings {
    /// Is the picture drawn small and enlarged?
    pub retro: bool,
    /// The rows of the small picture.
    pub height: u32,
    /// Its columns. 0 follows the window.
    pub width: u32,
    /// Is it enlarged by a whole number?
    pub integer_scale: bool,
    pub jitter: u32,
    pub affine_uv: bool,
    pub vertex_lit: bool,
    pub dither_alpha: bool,
    /// Is matter drawn that has no surface of its own?
    pub matter: bool,
}

/// The fewest and the most rows that can be chosen.
pub const MIN_ROWS: u32 = 80;

pub const MAX_ROWS: u32 = 1080;

/// The most columns that can be chosen.
pub const MAX_COLUMNS: u32 = 1920;

/// The bits of the coarsest and of the finest grid that can be chosen by number:
/// 20 and 512 steps.
pub const COARSEST: u32 = 0x41a0_0000;

pub const FINEST: u32 = 0x4400_0000;

/// The bits of a number without end.
const INFINITE: u32 = 0x7f80_0000;

/// Are these the bits of a number above zero?
pub open spec fn above_zero(bits: u32) -> bool {
    0 < bits <= 0x7f80_0000
}

/// An edit of one row.
#[derive(Clone, Copy, Debug, PartialEq, Eq, Structural)]
pub enum RetroEdit {
    Retro(bool),
    Rows(u32),
    Columns(u32),
    WholePixels(bool),
    /// A grid that has a name: its bits, and whether it is the one that is set.
    Preset { bits: u32, is_set: bool },
    /// A grid by its number.
    Steps(u32),
    Affine(bool),
    VertexLit(bool),
    Dither(bool),
    Matter(bool),
}

/// `n`, or the nearer of the two ends where it is beyond them.
pub open spec fn held_between(n: u32, low: u32, high: u32) -> u32 {
    if n < low {
        low
    } else if n > high {
        high
    } else {
        n
    }
}

/// `n`, or the nearer of the two ends where it is beyond them.
fn hold_between(n: u32, low: u32, high: u32) -> (out: u32)
    ensures
        out == held_between(n, low, high),
{
    if n < low {
        low
    } else if n > high {
        high
    } else {
        n
    }
}

/// The bits of a number below zero, and of no other, have this one set.
pub const BELOW_ZERO: u32 = 0x8000_0000;

/// The number of a grid, held between its ends by its bits. One below zero is below
/// both ends, and the bits of the others stand in the order of their numbers.
pub open spec fn held_steps(bits: u32) -> u32 {
    if bits >= BELOW_ZERO {
        COARSEST
    } else {
        held_between(bits, COARSEST, FINEST)
    }
}

/// Can the row that makes this edit be used? Those of the small picture can only
/// where it is drawn small, and the number of the grid only where there is one.
pub open spec fn has_row(s: RetroSettings, e: RetroEdit) -> bool {
    match e {
        RetroEdit::Rows(_) | RetroEdit::Columns(_) | RetroEdit::WholePixels(_) => s.retro,
        RetroEdit::Steps(_) => above_zero(s.jitter),
        _ => true,
    }
}

/// The settings after an edit of a row that can be used.
pub open spec fn with_edit(s: RetroSettings, e: RetroEdit) -> RetroSettings {
    match e {
        RetroEdit::Retro(on) => RetroSettings { retro: on, ..s },
        RetroEdit::Rows(n) => RetroSettings { height: held_between(n, MIN_ROWS, MAX_ROWS), ..s },
        RetroEdit::Columns(n) => RetroSettings { width: held_between(n, 0, MAX_COLUMNS), ..s },
        RetroEdit::WholePixels(on) => RetroSettings { integer_scale: on, ..s },
        RetroEdit::Preset { bits, is_set } => if is_set {
            s
        } else {
            RetroSettings { jitter: bits, ..s }
        },
        RetroEdit::Steps(bits) => RetroSettings { jitter: held_steps(bits), ..s },
        RetroEdit::Affine(on) => RetroSettings { affine_uv: on, ..s },
        RetroEdit::VertexLit(on) => RetroSettings { vertex_lit: on, ..s },
        RetroEdit::Dither(on) => RetroSettings { dither_alpha: on, ..s },
        RetroEdit::Matter(on) => RetroSettings { matter: on, ..s },
    }
}

/// What is shown of the settings.
#[derive(Clone, Copy, Debug, PartialEq, Eq, Structural)]
pub struct RetroRows {
    /// Can the rows of the small picture be used?
    pub small_picture: bool,
    /// Is it said that the columns follow the window?
    pub from_window: bool,
    /// Is the number of the grid shown?
    pub steps: bool,
}

impl RetroSettings {
    /// What is shown of the settings.
    pub fn rows(&self) -> (out: RetroRows)
        ensures
            out == (RetroRows {
                small_picture: self.retro,
                from_window: self.width == 0,
                steps: above_zero(self.jitter),
            }),
    {
        RetroRows {
            small_picture: self.retro,
            from_window: self.width == 0,
            steps: 0 < self.jitter && self.jitter <= INFINITE,
        }
    }

    /// Edits a row. Is the project to be saved? A row that cannot be used edits
    /// nothing, and neither does the name of the grid that is set.
    pub fn edit(&mut self, e: RetroEdit) -> (out: bool)
        ensures
            out == (has_row(*old(self), e) && !(e matches RetroEdit::Preset { is_set, .. }
                && is_set)),
            *final(self) == if has_row(*old(self), e) {
                with_edit(*old(self), e)
            } else {
                *old(self)
            },
    {
        match e {
            RetroEdit::Retro(on) => {
                self.retro = on;
            },
            RetroEdit::Rows(n) => {
                if !self.retro {
                    return false;
                }
                self.height = hold_between(n, MIN_ROWS, MAX_ROWS);
            },
            RetroEdit::Columns(n) => {
                if !self.retro {
                    return false;
                }
                self.width = hold_between(n, 0, MAX_COLUMNS);
            },
            RetroEdit::WholePixels(on) => {
                if !self.retro {
                    return false;
                }
                self.integer_scale = on;
            },
            RetroEdit::Preset { bits, is_set } => {
                if is_set {
                    return false;
                }
                self.jitter = bits;
            },
            RetroEdit::Steps(bits) => {
                if self.jitter == 0 || self.jitter > INFINITE {
                    return false;
                }
                self.jitter = if bits >= BELOW_ZERO {
                    COARSEST
                } else {
                    hold_between(bits, COARSEST, FINEST)
                };
            },
            RetroEdit::Affine(on) => {
                self.affine_uv = on;
            },
            RetroEdit::VertexLit(on) => {
                self.vertex_lit = on;
            },
            RetroEdit::Dither(on) => {
                self.dither_alpha = on;
            },
            RetroEdit::Matter(on) => {
                self.matter = on;
            },
        }
        true
    }
}

/// What is said over the name of a grid: what it looks like, and for one that has
/// steps how many, written out.
pub fn preset_hover(what: &str, steps: Option<&str>) -> (out: String)
    ensures
        out@ == match steps {
            Some(n) => what@ + "\n\n(grid steps: "@ + n@ + ")"@,
            None => what@,
        },
{
    match steps {
        Some(n) => joined(joined(joined(what, "\n\n(grid steps: ").as_str(), n).as_str(), ")"),
        None => copy_of(what),
    }
}

/// A row that is greyed out or not shown changes nothing.
pub proof fn law_a_row_that_cannot_be_used_changes_nothing(
    before: RetroSettings,
    e: RetroEdit,
    after: RetroSettings,
)
    requires
        after == if has_row(before, e) {
            with_edit(before, e)
        } else {
            before
        },
        !before.retro,
        !above_zero(before.jitter),
    ensures
        after.height == before.height,
        after.width == before.width,
        after.integer_scale == before.integer_scale,
        e is Steps ==> after == before,
{
}

/// What can be chosen by number stays within its ends, and a grid that is chosen
/// by number stays a grid: its row does not vanish under the pointer.
pub proof fn law_numbers_stay_within_their_ends(before: RetroSettings, e: RetroEdit)
    requires
        has_row(before, e),
    ensures
        e is Rows ==> MIN_ROWS <= with_edit(before, e).height <= MAX_ROWS,
        e is Columns ==> with_edit(before, e).width <= MAX_COLUMNS,
        e is Steps ==> above_zero(with_edit(before, e).jitter),
{
}

/// An edit changes what it names and nothing else: each field goes by its own row alone.
pub proof fn law_an_edit_changes_its_own_field(s: RetroSettings, e: RetroEdit)
    ensures
        ({
            let t = with_edit(s, e);
            &&& e matches RetroEdit::Retro(on) ==> t.retro == on
            &&& !(e is Retro) ==> t.retro == s.retro
            &&& e matches RetroEdit::Rows(n) ==> (MIN_ROWS <= n <= MAX_ROWS ==> t.height == n)
            &&& !(e is Rows) ==> t.height == s.height
            &&& e matches RetroEdit::Columns(n) ==> (n <= MAX_COLUMNS ==> t.width == n)
            &&& !(e is Columns) ==> t.width == s.width
            &&& e matches RetroEdit::WholePixels(on) ==> t.integer_scale == on
            &&& !(e is WholePixels) ==> t.integer_scale == s.integer_scale
            &&& e matches RetroEdit::Preset { bits, is_set } ==> (!is_set ==> t.jitter == bits) && (
            is_set ==> t == s)
            &&& e matches RetroEdit::Steps(bits) ==> (COARSEST <= bits <= FINEST ==> t.jitter
                == bits)
            &&& !(e is Preset || e is Steps) ==> t.jitter == s.jitter
            &&& e matches RetroEdit::Affine(on) ==> t.affine_uv == on
            &&& !(e is Affine) ==> t.affine_uv == s.affine_uv
            &&& e matches RetroEdit::VertexLit(on) ==> t.vertex_lit == on
            &&& !(e is VertexLit) ==> t.vertex_lit == s.vertex_lit
            &&& e matches RetroEdit::Dither(on) ==> t.dither_alpha == on
            &&& !(e is Dither) ==> t.dither_alpha == s.dither_alpha
            &&& e matches RetroEdit::Matter(on) ==> t.matter == on
            &&& !(e is Matter) ==> t.matter == s.matter
        }),
{
}

/// What is beyond an end is held at that end, and a grid below zero at the coarsest.
pub proof fn law_what_is_beyond_an_end_is_held_there(s: RetroSettings, n: u32)
    ensures
        n < MIN_ROWS ==> with_edit(s, RetroEdit::Rows(n)).height == MIN_ROWS,
        n > MAX_ROWS ==> with_edit(s, RetroEdit::Rows(n)).height == MAX_ROWS,
        n > MAX_COLUMNS ==> with_edit(s, RetroEdit::Columns(n)).width == MAX_COLUMNS,
        n < COARSEST || n >= BELOW_ZERO ==> with_edit(s, RetroEdit::Steps(n)).jitter == COARSEST,
        FINEST < n < BELOW_ZERO ==> with_edit(s, RetroEdit::Steps(n)).jitter == FINEST,
{
}

/// The rows of the small picture can be used exactly while it is drawn small, the number of the
/// grid exactly while there is a grid, and every other row always.
pub proof fn law_a_row_can_be_used_where_it_says_something(s: RetroSettings, e: RetroEdit)
    ensures
        e is Rows || e is Columns || e is WholePixels ==> (has_row(s, e) <==> s.retro),
        e is Steps ==> (has_row(s, e) <==> s.jitter != 0 && s.jitter <= 0x7f80_0000),
        !(e is Rows || e is Columns || e is WholePixels || e is Steps) ==> has_row(s, e),
{
}

/// What is said of a preset begins with what it is, and names its steps where it has any.
pub proof fn law_a_preset_is_described(what: &str, steps: &str, with: String, without: String)
    requires
        call_ensures(preset_hover, (what, Some(steps)), with),
        call_ensures(preset_hover, (what, None), without),
    ensures
        without@ == what@,
        what@.is_prefix_of(with@),
        (steps@ + ")"@).is_suffix_of(with@),
{
    assert(with@.subrange(0, what@.len() as int) =~= what@);
    let k = steps@ + ")"@;
    assert(with@.subrange(with@.len() - k.len(), with@.len() as int) =~= k);
}

} // verus!
