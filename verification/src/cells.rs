//! Ratatui's cell buffer, and what the painting code is told about it.
//!
//! A buffer is modelled as its area and a map from positions to cells.
//! A position is in the map exactly when indexing the buffer there does
//! not panic: inside the area and within the buffer's content.

use vstd::prelude::*;

use ratatui_core::buffer::Buffer;

use crate::style::{Color, Style};

verus! {

/// `ratatui_core::buffer::Buffer`, an opaque type here: what the library
/// knows of a buffer is only what [`buffer_area`] and [`buffer_cells`] say.
#[verifier::external_type_specification]
#[verifier::external_body]
pub struct ExBuffer(Buffer);

/// A cell colour: the terminal default, one of the sixteen named colours
/// (numbered in declaration order), a true colour or a palette index.
pub enum ColorModel {
    Reset,
    Named(u8),
    Rgb(u8, u8, u8),
    Indexed(u8),
}

/// What a buffer cell holds: its symbol, colours and modifier bits.
pub struct CellModel {
    pub symbol: Seq<char>,
    pub fg: ColorModel,
    pub bg: ColorModel,
    pub underline_color: ColorModel,
    pub modifier: u16,
}

/// The cell a reset leaves: a space, default colours, no modifiers.
pub open spec fn blank_cell() -> CellModel {
    CellModel {
        symbol: seq![' '],
        fg: ColorModel::Reset,
        bg: ColorModel::Reset,
        underline_color: ColorModel::Reset,
        modifier: 0,
    }
}

/// A cell with its symbol replaced and its style kept.
pub open spec fn with_symbol(c: CellModel, symbol: Seq<char>) -> CellModel {
    CellModel { symbol, ..c }
}

/// The area a buffer covers, its public field `area`: `(x, y, width,
/// height)`.
pub uninterp spec fn buffer_area(b: Buffer) -> (u16, u16, u16, u16);

/// The cells a buffer holds, by position: the positions where indexing
/// the buffer does not panic, and the cell found there.
pub uninterp spec fn buffer_cells(b: Buffer) -> Map<(int, int), CellModel>;

/// What `Buffer::set_stringn` makes of the row it writes (the whole row,
/// from column 0) and the column it stops at, given the row before, the
/// start column, the text, the width limit and the style. Splitting the
/// text into graphemes and measuring their display width is ratatui's
/// work, and is left unstated.
pub uninterp spec fn stringn_row(
    row: Seq<CellModel>,
    x: u16,
    text: Seq<char>,
    max_width: usize,
    style: Style,
) -> (Seq<CellModel>, u16);

/// The positions of a `width` by `height` grid from the origin.
pub open spec fn grid_domain(width: int, height: int) -> Set<(int, int)> {
    Set::new(|p: (int, int)| 0 <= p.0 < width && 0 <= p.1 < height)
}

/// A buffer as a grid: its size and cells.
pub struct Grid {
    pub width: int,
    pub height: int,
    pub cells: Map<(int, int), CellModel>,
}

pub open spec fn grid_of(b: Buffer) -> Grid {
    Grid {
        width: buffer_area(b).2 as int,
        height: buffer_area(b).3 as int,
        cells: buffer_cells(b),
    }
}

/// The buffer starts at the origin and holds a cell at every position of
/// its area.
pub open spec fn is_grid(b: Buffer) -> bool {
    &&& buffer_area(b).0 == 0
    &&& buffer_area(b).1 == 0
    &&& buffer_cells(b).dom() == grid_domain(buffer_area(b).2 as int, buffer_area(b).3 as int)
}

/// Every cell blank.
pub open spec fn blank_cells(width: int, height: int) -> Map<(int, int), CellModel> {
    Map::new(|p: (int, int)| grid_domain(width, height).contains(p), |p: (int, int)| blank_cell())
}

/// Row `y` of a grid, from column 0.
pub open spec fn grid_row(cells: Map<(int, int), CellModel>, width: int, y: int) -> Seq<
    CellModel,
> {
    Seq::new(width as nat, |i: int| cells[(i, y)])
}

/// Calls `Buffer::empty(Rect::new(0, 0, width, height))`. Claimed: the
/// area is exactly that rectangle (`Rect::new` clamps only an area that
/// would run past `u16::MAX`, which one at the origin cannot), and every
/// cell of it is `Cell::EMPTY`, a space with default colours.
#[verifier::external_body]
pub(crate) fn blank_buffer(width: u16, height: u16) -> (b: Buffer)
    ensures
        buffer_area(b) == (0u16, 0u16, width, height),
        buffer_cells(b) == blank_cells(width as int, height as int),
{
    Buffer::empty(ratatui_core::layout::Rect::new(0, 0, width, height))
}

/// Reads the public field `Buffer::area`: its `x`, `y`, `width` and
/// `height` are the buffer's area.
#[verifier::external_body]
pub(crate) fn buffer_dims(b: &Buffer) -> (r: (u16, u16, u16, u16))
    ensures
        r == buffer_area(*b),
{
    (b.area.x, b.area.y, b.area.width, b.area.height)
}

/// Does `dst[(dx, dy)] = src[(sx, sy)].clone()` through `Buffer`'s
/// `Index` and `IndexMut`, which panic outside the buffer. Claimed: that
/// one cell of `dst` becomes the source cell and nothing else changes.
#[verifier::external_body]
pub(crate) fn copy_cell(dst: &mut Buffer, dx: u16, dy: u16, src: &Buffer, sx: u16, sy: u16)
    requires
        buffer_cells(*old(dst)).dom().contains((dx as int, dy as int)),
        buffer_cells(*src).dom().contains((sx as int, sy as int)),
    ensures
        buffer_area(*final(dst)) == buffer_area(*old(dst)),
        buffer_cells(*final(dst)) == buffer_cells(*old(dst)).insert(
            (dx as int, dy as int),
            buffer_cells(*src)[(sx as int, sy as int)],
        ),
{
    dst[(dx, dy)] = src[(sx, sy)].clone();
}

/// Calls `Cell::set_symbol` on `b[(x, y)]`. Claimed: that cell's symbol
/// becomes `symbol`, its colours and modifiers stay, and no other cell
/// changes.
#[verifier::external_body]
pub(crate) fn set_symbol_at(b: &mut Buffer, x: u16, y: u16, symbol: &str)
    requires
        buffer_cells(*old(b)).dom().contains((x as int, y as int)),
    ensures
        buffer_area(*final(b)) == buffer_area(*old(b)),
        buffer_cells(*final(b)) == buffer_cells(*old(b)).insert(
            (x as int, y as int),
            with_symbol(buffer_cells(*old(b))[(x as int, y as int)], symbol@),
        ),
{
    b[(x, y)].set_symbol(symbol);
}

/// Calls `Cell::reset` on `b[(x, y)]`. Claimed: that cell becomes a
/// space with default colours and no modifiers, and no other cell
/// changes.
#[verifier::external_body]
pub(crate) fn reset_at(b: &mut Buffer, x: u16, y: u16)
    requires
        buffer_cells(*old(b)).dom().contains((x as int, y as int)),
    ensures
        buffer_area(*final(b)) == buffer_area(*old(b)),
        buffer_cells(*final(b)) == buffer_cells(*old(b)).insert((x as int, y as int), blank_cell()),
{
    b[(x, y)].reset();
}

/// Calls `Buffer::set_stringn(x, y, text, max_width, style)`, with the
/// library's style turned into ratatui's field by field. Claimed: the
/// area and the positions stay, only row `y` changes, and it becomes what
/// [`stringn_row`] names; the returned position is that end column and
/// `y`. The method indexes row `y` directly, so `y` must be inside the
/// buffer.
#[verifier::external_body]
pub(crate) fn set_stringn(b: &mut Buffer, x: u16, y: u16, text: &str, max_width: usize, style: Style) -> (r: (u16, u16))
    requires
        is_grid(*old(b)),
        y < buffer_area(*old(b)).3,
    ensures
        buffer_area(*final(b)) == buffer_area(*old(b)),
        buffer_cells(*final(b)).dom() == buffer_cells(*old(b)).dom(),
        forall|p: (int, int)|
            #![trigger buffer_cells(*final(b))[p]]
            buffer_cells(*old(b)).dom().contains(p) && p.1 != y ==> buffer_cells(*final(b))[p]
                == buffer_cells(*old(b))[p],
        ({
            let w = buffer_area(*old(b)).2 as int;
            let (row, end) = stringn_row(
                grid_row(buffer_cells(*old(b)), w, y as int),
                x,
                text@,
                max_width,
                style,
            );
            &&& grid_row(buffer_cells(*final(b)), w, y as int) == row
            &&& r == (end, y)
        }),
{
    let rgb = |c: Color| match c {
        Color::Rgb(r, g, b) => ratatui_core::style::Color::Rgb(r, g, b),
    };
    let mut converted = ratatui_core::style::Style::new()
        .add_modifier(ratatui_core::style::Modifier::from_bits_retain(style.add_modifier.bits));
    converted.fg = style.fg.map(rgb);
    converted.bg = style.bg.map(rgb);
    converted.underline_color = style.underline_color.map(rgb);
    b.set_stringn(x, y, text, max_width, converted)
}

} // verus!
