//! Per-view cell buffers and the compositing step.
//!
//! A terminal has one grid and composites nothing, so views are painted
//! into separate buffers and copied onto the screen here in layer order:
//! tiles, then the separators between them, then headers, then floating
//! windows, each ringed by its border.

use vstd::prelude::*;
use vstd::view::View as _;

use ratatui_core::buffer::Buffer;

use crate::cells::{
    blank_buffer, blank_cells, buffer_area, buffer_cells, buffer_dims, copy_cell, grid_domain,
    grid_of, is_grid, set_symbol_at, with_symbol, CellModel, Grid,
};
use crate::protocol::{BorderShape, View, ViewKind, ViewType};

verus! {

/// A view and the cells painted into it.
///
/// The modeline is a separate one-row buffer rather than the view's last
/// row: Lem treats it as an extra row below the view, and every
/// `modeline-put` arrives at row 0 of its own coordinate space. Painting
/// it into the view buffer would overwrite the first line of the file.
pub struct ViewBuffer {
    pub view: View,
    pub buffer: Buffer,
    pub modeline: Buffer,
}

/// A view with the grids of its buffer and modeline.
pub struct ViewModel {
    pub view: View,
    pub buffer: Grid,
    pub modeline: Grid,
}

impl ViewBuffer {
    pub open spec fn model(&self) -> ViewModel {
        ViewModel { view: self.view, buffer: grid_of(self.buffer), modeline: grid_of(self.modeline) }
    }

    /// Both buffers start at the origin and hold every cell of their area.
    pub open spec fn shaped(&self) -> bool {
        is_grid(self.buffer) && is_grid(self.modeline)
    }
}

pub open spec fn models_of(s: Seq<ViewBuffer>) -> Seq<ViewModel> {
    s.map_values(|vb: ViewBuffer| vb.model())
}

// ---------------------------------------------------------------------
// What compositing paints.
// ---------------------------------------------------------------------

/// A view the terminal can paint. Html views are tracked but skipped:
/// blitting their empty buffer would blank whatever lies beneath.
pub open spec fn is_editor(m: ViewModel) -> bool {
    m.view.content_type == ViewType::Editor
}

/// The painted views of one kind, in insertion order.
pub open spec fn layer_of(s: Seq<ViewModel>, kind: ViewKind) -> Seq<ViewModel>
    decreases s.len(),
{
    if s.len() == 0 {
        Seq::empty()
    } else if is_editor(s.last()) && s.last().view.kind == kind {
        layer_of(s.drop_last(), kind).push(s.last())
    } else {
        layer_of(s.drop_last(), kind)
    }
}

/// Painting order: tiles are the background, floating windows the top.
pub open spec fn spec_layer(kind: ViewKind) -> u8 {
    match kind {
        ViewKind::Tile => 0,
        ViewKind::Header => 1,
        ViewKind::Floating => 2,
    }
}

pub open spec fn sat_add(a: u16, b: u16) -> int {
    if a + b > u16::MAX {
        u16::MAX as int
    } else {
        a + b
    }
}

/// Cells after copying `src` onto them with its origin at `(x, y)`; what
/// falls off the screen is dropped.
pub open spec fn blit_cells(cells: Map<(int, int), CellModel>, src: Grid, x: int, y: int) -> Map<
    (int, int),
    CellModel,
> {
    Map::new(
        |p: (int, int)| cells.dom().contains(p),
        |p: (int, int)|
            if x <= p.0 < x + src.width && y <= p.1 < y + src.height {
                src.cells[(p.0 - x, p.1 - y)]
            } else {
                cells[p]
            },
    )
}

/// A view's buffer at its position, and its modeline one row below it.
pub open spec fn blit_view_cells(cells: Map<(int, int), CellModel>, m: ViewModel) -> Map<
    (int, int),
    CellModel,
> {
    let c = blit_cells(cells, m.buffer, m.view.x as int, m.view.y as int);
    if m.view.spec_has_modeline() {
        blit_cells(c, m.modeline, m.view.x as int, sat_add(m.view.y, m.view.height))
    } else {
        c
    }
}

pub open spec fn vertical_glyph() -> Seq<char> {
    seq!['\u{2502}']
}

pub open spec fn horizontal_glyph() -> Seq<char> {
    seq!['\u{2500}']
}

/// How many rows a view spans on screen: its modeline is an extra row.
pub open spec fn rows_spanned(v: View) -> int {
    v.height + if v.spec_has_modeline() {
        1int
    } else {
        0int
    }
}

/// The separator Lem reserves the column left of a split for: a vertical
/// rule at `x - 1` down the view and its modeline row. A view at `x = 0`
/// has nothing to its left and gets none.
pub open spec fn separator_cells(cells: Map<(int, int), CellModel>, v: View) -> Map<
    (int, int),
    CellModel,
> {
    Map::new(
        |p: (int, int)| cells.dom().contains(p),
        |p: (int, int)|
            if v.x > 0 && p.0 == v.x - 1 && v.y <= p.1 < v.y + rows_spanned(v) {
                with_symbol(cells[p], vertical_glyph())
            } else {
                cells[p]
            },
    )
}

/// The glyph a floating window's border puts at `p`, if any.
///
/// The border lives outside the view: a view at `(x, y)` of `w` by `h`
/// with border `s` is ringed by a box at `(x - s, y - s)` of `w + 2s` by
/// `h + 2s`. A drop curtain's top corners tee into what is above it. A
/// left border is a single rule down the left edge, spanning only the
/// view's own rows.
pub open spec fn border_glyph(v: View, p: (int, int)) -> Option<Seq<char>> {
    let size: int = match v.border {
        Some(s) => s as int,
        None => 0,
    };
    let (x, y, w, h) = (v.x as int, v.y as int, v.width as int, v.height as int);
    let left = x - size;
    let top = y - size;
    let right = left + w + 2 * size - 1;
    let bottom = top + h + 2 * size - 1;
    let drop = v.border_shape == Some(BorderShape::DropCurtain);
    if size == 0 {
        None
    } else if v.border_shape == Some(BorderShape::LeftBorder) {
        if p.0 == left && y <= p.1 < y + h {
            Some(vertical_glyph())
        } else {
            None
        }
    } else if p == (left, top) {
        Some(
            if drop {
                seq!['\u{251c}']
            } else {
                seq!['\u{256d}']
            },
        )
    } else if p == (right, top) {
        Some(
            if drop {
                seq!['\u{2524}']
            } else {
                seq!['\u{256e}']
            },
        )
    } else if p == (left, bottom) {
        Some(seq!['\u{2570}'])
    } else if p == (right, bottom) {
        Some(seq!['\u{256f}'])
    } else if (p.1 == top || p.1 == bottom) && left < p.0 < right {
        Some(horizontal_glyph())
    } else if (p.0 == left || p.0 == right) && top < p.1 < bottom {
        Some(vertical_glyph())
    } else {
        None
    }
}

pub open spec fn border_cells(cells: Map<(int, int), CellModel>, v: View) -> Map<
    (int, int),
    CellModel,
> {
    Map::new(
        |p: (int, int)| cells.dom().contains(p),
        |p: (int, int)|
            match border_glyph(v, p) {
                Some(g) => with_symbol(cells[p], g),
                None => cells[p],
            },
    )
}

/// Every view of `s` blitted in turn.
pub open spec fn blit_all(s: Seq<ViewModel>, cells: Map<(int, int), CellModel>) -> Map<
    (int, int),
    CellModel,
>
    decreases s.len(),
{
    if s.len() == 0 {
        cells
    } else {
        blit_view_cells(blit_all(s.drop_last(), cells), s.last())
    }
}

/// The separator of every view of `s` drawn in turn.
pub open spec fn separate_all(s: Seq<ViewModel>, cells: Map<(int, int), CellModel>) -> Map<
    (int, int),
    CellModel,
>
    decreases s.len(),
{
    if s.len() == 0 {
        cells
    } else {
        separator_cells(separate_all(s.drop_last(), cells), s.last().view)
    }
}

/// Every view of `s` in turn: its border, then its cells.
pub open spec fn frame_all(s: Seq<ViewModel>, cells: Map<(int, int), CellModel>) -> Map<
    (int, int),
    CellModel,
>
    decreases s.len(),
{
    if s.len() == 0 {
        cells
    } else {
        blit_view_cells(border_cells(frame_all(s.drop_last(), cells), s.last().view), s.last())
    }
}

/// The tiles, then their separators, which a neighbour cannot then
/// overwrite.
pub open spec fn under_layers(views: Seq<ViewModel>, cells: Map<(int, int), CellModel>) -> Map<
    (int, int),
    CellModel,
> {
    let tiles = layer_of(views, ViewKind::Tile);
    separate_all(tiles, blit_all(tiles, cells))
}

/// The screen after compositing `views` onto it: tiles and their
/// separators, then headers, then floating windows on top.
pub open spec fn composite_cells(views: Seq<ViewModel>, cells: Map<(int, int), CellModel>) -> Map<
    (int, int),
    CellModel,
> {
    frame_all(
        layer_of(views, ViewKind::Floating),
        frame_all(layer_of(views, ViewKind::Header), under_layers(views, cells)),
    )
}

/// Separators can be measured without overflow: a tile with a modeline
/// is less than `u16::MAX` rows tall.
pub open spec fn separators_fit(views: Seq<ViewModel>) -> bool {
    forall|i: int|
        0 <= i < views.len() && is_editor(views[i]) && #[trigger] views[i].view.kind == ViewKind::Tile
            && views[i].view.spec_has_modeline() ==> views[i].view.height < u16::MAX
}

// ---------------------------------------------------------------------
// Laws of compositing.
// ---------------------------------------------------------------------

/// A split's separator is a vertical rule in the column left of the view,
/// on every row from the view's top through its last row, and through the
/// modeline row below it when it has one, wherever the view stands; the
/// rule keeps each cell's style, and no other cell changes. A view at the
/// left edge gets none.
pub proof fn lemma_separator_spans_the_view(cells: Map<(int, int), CellModel>, v: View)
    ensures
        separator_cells(cells, v).dom() == cells.dom(),
        forall|r: int|
            #![trigger separator_cells(cells, v)[(v.x - 1, r)]]
            v.x > 0 && cells.dom().contains((v.x - 1, r)) && v.y <= r && (r < v.y + v.height || (
            v.spec_has_modeline() && r == v.y + v.height)) ==> separator_cells(cells, v)[(v.x
                - 1, r)] == with_symbol(cells[(v.x - 1, r)], seq!['\u{2502}']),
        forall|p: (int, int)|
            #![trigger separator_cells(cells, v)[p]]
            cells.dom().contains(p) && (v.x == 0 || p.0 != v.x - 1 || p.1 < v.y || p.1 > v.y
                + v.height || (p.1 == v.y + v.height && !v.spec_has_modeline()))
                ==> separator_cells(cells, v)[p] == cells[p],
{
    assert(separator_cells(cells, v).dom() =~= cells.dom());
}

/// A painted view of a layer's kind is in that layer.
proof fn lemma_layer_has(s: Seq<ViewModel>, kind: ViewKind, i: int)
    requires
        0 <= i < s.len(),
        is_editor(s[i]),
        s[i].view.kind == kind,
    ensures
        exists|k: int| 0 <= k < layer_of(s, kind).len() && layer_of(s, kind)[k] == s[i],
    decreases s.len(),
{
    let l = layer_of(s, kind);
    if i == s.len() - 1 {
        assert(l[l.len() - 1] == s[i]);
    } else {
        lemma_layer_has(s.drop_last(), kind, i);
        let inner = layer_of(s.drop_last(), kind);
        let k = choose|k: int| 0 <= k < inner.len() && inner[k] == s.drop_last()[i];
        assert(l[k] == inner[k]);
    }
}

/// A cell in some view's separator shows the rule once every separator of
/// `s` is drawn.
proof fn lemma_separate_all_marks(s: Seq<ViewModel>, c: Map<(int, int), CellModel>, i: int, p: (int, int))
    requires
        0 <= i < s.len(),
        c.dom().contains(p),
        s[i].view.x > 0,
        p.0 == s[i].view.x - 1,
        s[i].view.y <= p.1 < s[i].view.y + rows_spanned(s[i].view),
    ensures
        separate_all(s, c).dom().contains(p),
        separate_all(s, c)[p].symbol == vertical_glyph(),
    decreases s.len(),
{
    lemma_separate_all_dom(s, c);
    let inner = separate_all(s.drop_last(), c);
    lemma_separate_all_dom(s.drop_last(), c);
    let v = s.last().view;
    if v.x > 0 && p.0 == v.x - 1 && v.y <= p.1 < v.y + rows_spanned(v) {
    } else {
        assert(i < s.len() - 1);
        assert(s.drop_last()[i] == s[i]);
        lemma_separate_all_marks(s.drop_last(), c, i, p);
    }
}

/// Every split shows its separator: in the column left of a painted tile
/// not at the left edge, on each of its rows and on its modeline row, the
/// screen shows a vertical rule wherever no header or floating window
/// reaches.
pub proof fn lemma_splits_show_their_separators(
    views: Seq<ViewModel>,
    cells: Map<(int, int), CellModel>,
    i: int,
    r: int,
)
    requires
        0 <= i < views.len(),
        is_editor(views[i]),
        views[i].view.kind == ViewKind::Tile,
        views[i].view.x > 0,
        cells.dom().contains((views[i].view.x - 1, r)),
        views[i].view.y <= r,
        r < views[i].view.y + views[i].view.height || (views[i].view.spec_has_modeline() && r
            == views[i].view.y + views[i].view.height),
        forall|j: int|
            0 <= j < views.len() && is_editor(#[trigger] views[j]) && views[j].view.kind
                != ViewKind::Tile ==> !touches(views[j], (views[i].view.x - 1, r)),
    ensures
        composite_cells(views, cells)[(views[i].view.x - 1, r)].symbol == seq!['\u{2502}'],
{
    let p = (views[i].view.x - 1, r);
    lemma_tiles_show_through(views, cells, p);
    let tiles = layer_of(views, ViewKind::Tile);
    lemma_layer_has(views, ViewKind::Tile, i);
    let k = choose|k: int| 0 <= k < tiles.len() && tiles[k] == views[i];
    lemma_blit_all_dom(tiles, cells);
    lemma_separate_all_marks(tiles, blit_all(tiles, cells), k, p);
}

/// The modeline is an extra row below the view: copying a view with one
/// puts the modeline's cells on the row just under the view's last row,
/// over whatever was there. A view without one leaves that row alone.
pub proof fn lemma_modeline_sits_below_the_view(cells: Map<(int, int), CellModel>, m: ViewModel, c: int)
    requires
        m.view.y + m.view.height <= u16::MAX,
        m.buffer.height <= m.view.height,
        cells.dom().contains((m.view.x + c, m.view.y + m.view.height)),
    ensures
        m.view.spec_has_modeline() && 0 <= c < m.modeline.width && m.modeline.height >= 1
            ==> blit_view_cells(cells, m)[(m.view.x + c, m.view.y + m.view.height)]
            == m.modeline.cells[(c, 0)],
        !m.view.spec_has_modeline() ==> blit_view_cells(cells, m)[(m.view.x + c, m.view.y
            + m.view.height)] == cells[(m.view.x + c, m.view.y + m.view.height)],
{
}

/// A floating window's border lies outside the view, so it never covers
/// the view's own cells; no border, or one of size 0, draws nothing; and a
/// box border rings the view completely, its corners rounded, or teed into
/// what is above for a drop curtain's top ones.
pub proof fn lemma_border_rings_the_view(v: View, p: (int, int))
    ensures
        border_glyph(v, p) is Some ==> !(v.x <= p.0 < v.x + v.width && v.y <= p.1 < v.y
            + v.height),
        (v.border is None || v.border == Some(0u16)) ==> border_glyph(v, p) is None,
        ({
            let s: int = match v.border {
                Some(b) => b as int,
                None => 0,
            };
            let left = v.x - s;
            let top = v.y - s;
            let right = v.x + v.width + s - 1;
            let bottom = v.y + v.height + s - 1;
            let drop = v.border_shape == Some(BorderShape::DropCurtain);
            s > 0 && v.border_shape != Some(BorderShape::LeftBorder) ==> {
                &&& (((p.0 == left || p.0 == right) && top <= p.1 <= bottom) || ((p.1 == top || p.1
                    == bottom) && left <= p.0 <= right)) <==> border_glyph(v, p) is Some
                &&& p == (left, top) ==> border_glyph(v, p) == Some(
                    if drop { seq!['\u{251c}'] } else { seq!['\u{256d}'] },
                )
                &&& p == (right, top) ==> border_glyph(v, p) == Some(
                    if drop { seq!['\u{2524}'] } else { seq!['\u{256e}'] },
                )
                &&& p == (left, bottom) ==> border_glyph(v, p) == Some(seq!['\u{2570}'])
                &&& p == (right, bottom) ==> border_glyph(v, p) == Some(seq!['\u{256f}'])
                &&& (p.1 == top || p.1 == bottom) && left < p.0 < right ==> border_glyph(v, p)
                    == Some(seq!['\u{2500}'])
                &&& (p.0 == left || p.0 == right) && top < p.1 < bottom ==> border_glyph(v, p)
                    == Some(seq!['\u{2502}'])
            }
        }),
        v.border is Some && v.border->0 > 0 && v.border_shape == Some(BorderShape::LeftBorder)
            ==> (border_glyph(v, p) is Some <==> (p.0 == v.x - v.border->0 && v.y <= p.1 < v.y
            + v.height)),
{
}

/// Copying views that all either leave `p` alone or are `m` itself, with
/// `m` among them and its buffer (not its modeline) over `p`, leaves `m`'s
/// cell at `p`.
proof fn lemma_blit_all_shows(s: Seq<ViewModel>, c: Map<(int, int), CellModel>, m: ViewModel, p: (int, int))
    requires
        c.dom().contains(p),
        exists|k: int| 0 <= k < s.len() && s[k] == m,
        forall|j: int| 0 <= j < s.len() && touches(#[trigger] s[j], p) ==> s[j] == m,
        m.view.x <= p.0 < m.view.x + m.buffer.width,
        m.view.y <= p.1 < m.view.y + m.buffer.height,
        !(m.view.spec_has_modeline() && m.view.x <= p.0 < m.view.x + m.modeline.width && sat_add(
            m.view.y,
            m.view.height,
        ) <= p.1 < sat_add(m.view.y, m.view.height) + m.modeline.height),
    ensures
        blit_all(s, c)[p] == m.buffer.cells[(p.0 - m.view.x, p.1 - m.view.y)],
    decreases s.len(),
{
    lemma_blit_all_dom(s.drop_last(), c);
    let inner = blit_all(s.drop_last(), c);
    let last = s.last();
    if last == m {
    } else {
        let k = choose|k: int| 0 <= k < s.len() && s[k] == m;
        assert(k < s.len() - 1);
        assert(s.drop_last()[k] == m);
        assert(!touches(s[s.len() - 1], p));
        assert forall|j: int| 0 <= j < s.drop_last().len() && touches(#[trigger] s.drop_last()[j], p)
            implies s.drop_last()[j] == m by {
            assert(s.drop_last()[j] == s[j]);
        }
        lemma_blit_all_shows(s.drop_last(), c, m, p);
    }
}

/// Separators that do not cover `p` leave it as it was.
proof fn lemma_separate_all_untouched(s: Seq<ViewModel>, c: Map<(int, int), CellModel>, p: (int, int))
    requires
        c.dom().contains(p),
        forall|j: int|
            0 <= j < s.len() ==> !((#[trigger] s[j]).view.x > 0 && p.0 == s[j].view.x - 1 && s[j].view.y
                <= p.1 < s[j].view.y + rows_spanned(s[j].view)),
    ensures
        separate_all(s, c)[p] == c[p],
    decreases s.len(),
{
    if s.len() > 0 {
        lemma_separate_all_dom(s.drop_last(), c);
        assert forall|j: int| 0 <= j < s.drop_last().len() implies !((#[trigger] s.drop_last()[j]).view.x
            > 0 && p.0 == s.drop_last()[j].view.x - 1 && s.drop_last()[j].view.y <= p.1
            < s.drop_last()[j].view.y + rows_spanned(s.drop_last()[j].view)) by {
            assert(s.drop_last()[j] == s[j]);
        }
        lemma_separate_all_untouched(s.drop_last(), c, p);
        let last = s[s.len() - 1];
        assert(!(last.view.x > 0 && p.0 == last.view.x - 1 && last.view.y <= p.1 < last.view.y
            + rows_spanned(last.view)));
    }
}

/// Tiles are painted: where a painted tile's buffer lands on the screen,
/// and nothing else reaches (no other tile, no separator, no header and no
/// floating window), the screen shows that tile's cell.
pub proof fn lemma_tiles_are_painted(views: Seq<ViewModel>, cells: Map<(int, int), CellModel>, i: int, p: (int, int))
    requires
        0 <= i < views.len(),
        is_editor(views[i]),
        views[i].view.kind == ViewKind::Tile,
        cells.dom().contains(p),
        views[i].view.x <= p.0 < views[i].view.x + views[i].buffer.width,
        views[i].view.y <= p.1 < views[i].view.y + views[i].buffer.height,
        views[i].buffer.height <= views[i].view.height,
        views[i].view.y + views[i].view.height <= u16::MAX,
        forall|j: int|
            0 <= j < views.len() && is_editor(#[trigger] views[j]) && views[j].view.kind
                == ViewKind::Tile && touches(views[j], p) ==> views[j] == views[i],
        forall|j: int|
            0 <= j < views.len() && is_editor(#[trigger] views[j]) && views[j].view.kind
                == ViewKind::Tile ==> !(views[j].view.x > 0 && p.0 == views[j].view.x - 1
                && views[j].view.y <= p.1 && (p.1 < views[j].view.y + views[j].view.height || (
            views[j].view.spec_has_modeline() && p.1 == views[j].view.y + views[j].view.height))),
        forall|j: int|
            0 <= j < views.len() && is_editor(#[trigger] views[j]) && views[j].view.kind
                != ViewKind::Tile ==> !touches(views[j], p),
    ensures
        composite_cells(views, cells)[p] == views[i].buffer.cells[(p.0 - views[i].view.x, p.1
            - views[i].view.y)],
{
    lemma_tiles_show_through(views, cells, p);
    let tiles = layer_of(views, ViewKind::Tile);
    lemma_layer_has(views, ViewKind::Tile, i);
    lemma_layer_members(views, ViewKind::Tile);
    assert forall|j: int| 0 <= j < tiles.len() && touches(#[trigger] tiles[j], p) implies tiles[j]
        == views[i] by {
        let k = choose|k: int|
            0 <= k < views.len() && views[k] == tiles[j] && is_editor(views[k])
                && views[k].view.kind == ViewKind::Tile;
    }
    lemma_blit_all_shows(tiles, cells, views[i], p);
    lemma_blit_all_dom(tiles, cells);
    assert forall|j: int| 0 <= j < tiles.len() implies !((#[trigger] tiles[j]).view.x > 0 && p.0
        == tiles[j].view.x - 1 && tiles[j].view.y <= p.1 < tiles[j].view.y + rows_spanned(
        tiles[j].view,
    )) by {
        let k = choose|k: int|
            0 <= k < views.len() && views[k] == tiles[j] && is_editor(views[k])
                && views[k].view.kind == ViewKind::Tile;
    }
    lemma_separate_all_untouched(tiles, blit_all(tiles, cells), p);
}

/// Whether painting `m` (its border, buffer or modeline) can touch `p`.
pub open spec fn touches(m: ViewModel, p: (int, int)) -> bool {
    ||| border_glyph(m.view, p) is Some
    ||| (m.view.x <= p.0 < m.view.x + m.buffer.width && m.view.y <= p.1 < m.view.y
        + m.buffer.height)
    ||| (m.view.spec_has_modeline() && m.view.x <= p.0 < m.view.x + m.modeline.width && sat_add(
        m.view.y,
        m.view.height,
    ) <= p.1 < sat_add(m.view.y, m.view.height) + m.modeline.height)
}

/// The order of insertion between layers does not matter: the screen
/// depends only on the order of the views within each layer.
pub proof fn lemma_layers_decide(a: Seq<ViewModel>, b: Seq<ViewModel>, cells: Map<(int, int), CellModel>)
    requires
        layer_of(a, ViewKind::Tile) == layer_of(b, ViewKind::Tile),
        layer_of(a, ViewKind::Header) == layer_of(b, ViewKind::Header),
        layer_of(a, ViewKind::Floating) == layer_of(b, ViewKind::Floating),
    ensures
        composite_cells(a, cells) == composite_cells(b, cells),
{
}

/// A view outside a layer does not change the layer.
proof fn lemma_layer_skip(s: Seq<ViewModel>, i: int, kind: ViewKind)
    requires
        0 <= i < s.len(),
        !(is_editor(s[i]) && s[i].view.kind == kind),
    ensures
        layer_of(s.remove(i), kind) == layer_of(s, kind),
    decreases s.len(),
{
    if i == s.len() - 1 {
        assert(s.remove(i) =~= s.drop_last());
    } else {
        lemma_layer_skip(s.drop_last(), i, kind);
        assert(s.remove(i).drop_last() =~= s.drop_last().remove(i));
        assert(s.remove(i).last() == s.last());
    }
}

/// Html views are tracked but never painted: taking one away leaves the
/// screen as it was.
pub proof fn lemma_html_never_painted(views: Seq<ViewModel>, i: int, cells: Map<(int, int), CellModel>)
    requires
        0 <= i < views.len(),
        views[i].view.content_type == ViewType::Html,
    ensures
        composite_cells(views.remove(i), cells) == composite_cells(views, cells),
{
    lemma_layer_skip(views, i, ViewKind::Tile);
    lemma_layer_skip(views, i, ViewKind::Header);
    lemma_layer_skip(views, i, ViewKind::Floating);
}

/// Views that do not touch `p` leave it as it was.
proof fn lemma_frame_untouched(s: Seq<ViewModel>, cells: Map<(int, int), CellModel>, p: (int, int))
    requires
        cells.dom().contains(p),
        forall|j: int| 0 <= j < s.len() ==> !touches(#[trigger] s[j], p),
    ensures
        frame_all(s, cells).dom() == cells.dom(),
        frame_all(s, cells)[p] == cells[p],
    decreases s.len(),
{
    if s.len() > 0 {
        lemma_frame_untouched(s.drop_last(), cells, p);
        assert(!touches(s[s.len() - 1], p));
        let inner = frame_all(s.drop_last(), cells);
        assert(border_cells(inner, s.last().view).dom() =~= inner.dom());
        assert(blit_cells(border_cells(inner, s.last().view), s.last().buffer, s.last().view.x as int, s.last().view.y as int).dom() =~= inner.dom());
        assert(blit_view_cells(border_cells(inner, s.last().view), s.last()).dom() =~= inner.dom());
    }
}

/// Where no header or floating window reaches, the screen shows the
/// tiles and the separators between them.
pub proof fn lemma_tiles_show_through(views: Seq<ViewModel>, cells: Map<(int, int), CellModel>, p: (int, int))
    requires
        cells.dom().contains(p),
        forall|j: int|
            0 <= j < views.len() && is_editor(#[trigger] views[j]) && views[j].view.kind
                != ViewKind::Tile ==> !touches(views[j], p),
    ensures
        composite_cells(views, cells)[p] == under_layers(views, cells)[p],
{
    lemma_layer_members(views, ViewKind::Header);
    lemma_layer_members(views, ViewKind::Floating);
    let under = under_layers(views, cells);
    lemma_under_dom(views, cells);
    lemma_frame_untouched(layer_of(views, ViewKind::Header), under, p);
    lemma_frame_untouched(
        layer_of(views, ViewKind::Floating),
        frame_all(layer_of(views, ViewKind::Header), under),
        p,
    );
}

/// The views of a layer are painted views of that kind from `s`.
proof fn lemma_layer_members(s: Seq<ViewModel>, kind: ViewKind)
    ensures
        forall|j: int|
            0 <= j < layer_of(s, kind).len() ==> exists|k: int|
                0 <= k < s.len() && s[k] == #[trigger] layer_of(s, kind)[j] && is_editor(s[k])
                    && s[k].view.kind == kind,
    decreases s.len(),
{
    if s.len() > 0 {
        lemma_layer_members(s.drop_last(), kind);
        let l = layer_of(s, kind);
        assert forall|j: int| 0 <= j < l.len() implies exists|k: int|
            0 <= k < s.len() && s[k] == #[trigger] l[j] && is_editor(s[k]) && s[k].view.kind
                == kind by {
            let inner = layer_of(s.drop_last(), kind);
            if j < inner.len() {
                assert(l[j] == inner[j]);
                let k = choose|k: int|
                    0 <= k < s.drop_last().len() && s.drop_last()[k] == inner[j] && is_editor(
                        s.drop_last()[k],
                    ) && s.drop_last()[k].view.kind == kind;
                assert(s[k] == s.drop_last()[k]);
            } else {
                assert(l[j] == s.last());
                assert(s[s.len() - 1] == l[j]);
            }
        }
    }
}

/// Blitting, separating and framing keep the screen's positions.
proof fn lemma_under_dom(views: Seq<ViewModel>, cells: Map<(int, int), CellModel>)
    ensures
        under_layers(views, cells).dom() == cells.dom(),
{
    lemma_blit_all_dom(layer_of(views, ViewKind::Tile), cells);
    lemma_separate_all_dom(layer_of(views, ViewKind::Tile), blit_all(layer_of(views, ViewKind::Tile), cells));
}

proof fn lemma_blit_all_dom(s: Seq<ViewModel>, cells: Map<(int, int), CellModel>)
    ensures
        blit_all(s, cells).dom() == cells.dom(),
    decreases s.len(),
{
    if s.len() > 0 {
        lemma_blit_all_dom(s.drop_last(), cells);
        let inner = blit_all(s.drop_last(), cells);
        let m = s.last();
        assert(blit_cells(inner, m.buffer, m.view.x as int, m.view.y as int).dom() =~= inner.dom());
        assert(blit_view_cells(inner, m).dom() =~= inner.dom());
    }
}

proof fn lemma_separate_all_dom(s: Seq<ViewModel>, cells: Map<(int, int), CellModel>)
    ensures
        separate_all(s, cells).dom() == cells.dom(),
    decreases s.len(),
{
    if s.len() > 0 {
        lemma_separate_all_dom(s.drop_last(), cells);
        assert(separator_cells(separate_all(s.drop_last(), cells), s.last().view).dom()
            =~= separate_all(s.drop_last(), cells).dom());
    }
}

/// Floating windows paint over everything: wherever the last floating
/// window's buffer lands on screen, the screen shows it.
pub proof fn lemma_floating_on_top(views: Seq<ViewModel>, cells: Map<(int, int), CellModel>, p: (int, int))
    requires
        layer_of(views, ViewKind::Floating).len() > 0,
        cells.dom().contains(p),
        p.1 < u16::MAX,
        ({
            let f = layer_of(views, ViewKind::Floating).last();
            &&& f.buffer.height <= f.view.height
            &&& f.view.x <= p.0 < f.view.x + f.buffer.width
            &&& f.view.y <= p.1 < f.view.y + f.buffer.height
        }),
    ensures
        ({
            let f = layer_of(views, ViewKind::Floating).last();
            composite_cells(views, cells)[p] == f.buffer.cells[(p.0 - f.view.x, p.1 - f.view.y)]
        }),
{
    let floats = layer_of(views, ViewKind::Floating);
    let f = floats.last();
    let below = frame_all(
        floats.drop_last(),
        frame_all(layer_of(views, ViewKind::Header), under_layers(views, cells)),
    );
    lemma_under_dom(views, cells);
    lemma_frame_dom(layer_of(views, ViewKind::Header), under_layers(views, cells));
    lemma_frame_dom(floats.drop_last(), frame_all(layer_of(views, ViewKind::Header), under_layers(views, cells)));
    let bordered = border_cells(below, f.view);
    assert(bordered.dom().contains(p));
    let c = blit_cells(bordered, f.buffer, f.view.x as int, f.view.y as int);
    assert(c.dom().contains(p));
    assert(c[p] == f.buffer.cells[(p.0 - f.view.x, p.1 - f.view.y)]);
}

proof fn lemma_frame_dom(s: Seq<ViewModel>, cells: Map<(int, int), CellModel>)
    ensures
        frame_all(s, cells).dom() == cells.dom(),
    decreases s.len(),
{
    if s.len() > 0 {
        lemma_frame_dom(s.drop_last(), cells);
        let inner = frame_all(s.drop_last(), cells);
        let m = s.last();
        let b = border_cells(inner, m.view);
        assert(b.dom() =~= inner.dom());
        assert(blit_cells(b, m.buffer, m.view.x as int, m.view.y as int).dom() =~= inner.dom());
        assert(blit_view_cells(b, m).dom() =~= inner.dom());
    }
}

// ---------------------------------------------------------------------
// Painting onto the screen.
// ---------------------------------------------------------------------

/// The screen is a `width` by `height` grid.
pub open spec fn screen_is(screen: Buffer, width: u16, height: u16) -> bool {
    &&& is_grid(screen)
    &&& buffer_area(screen).2 == width
    &&& buffer_area(screen).3 == height
}

/// Cells of `src` copied so far: whole rows above `r`, and row `r` up to
/// column `c`.
pub open spec fn blit_upto(
    cells: Map<(int, int), CellModel>,
    src: Grid,
    x: int,
    y: int,
    r: int,
    c: int,
) -> Map<(int, int), CellModel> {
    Map::new(
        |p: (int, int)| cells.dom().contains(p),
        |p: (int, int)|
            if x <= p.0 < x + src.width && y <= p.1 < y + src.height && (p.1 - y < r || (p.1 - y
                == r && p.0 - x < c)) {
                src.cells[(p.0 - x, p.1 - y)]
            } else {
                cells[p]
            },
    )
}

/// How many of `len` cells from `start` land on a screen `limit` wide.
fn clip(start: u16, len: u16, limit: u16) -> (n: u16)
    ensures
        n <= len,
        start + n <= limit || n == 0,
        n < len ==> start + n >= limit,
{
    if start >= limit {
        0
    } else if len <= limit - start {
        len
    } else {
        limit - start
    }
}

/// Copy `source` onto `screen` at `(x, y)`, clipped to the screen.
fn blit(screen: &mut Buffer, source: &Buffer, x: u16, y: u16, width: u16, height: u16)
    requires
        screen_is(*old(screen), width, height),
        is_grid(*source),
    ensures
        screen_is(*final(screen), width, height),
        buffer_area(*final(screen)) == buffer_area(*old(screen)),
        buffer_cells(*final(screen)) == blit_cells(
            buffer_cells(*old(screen)),
            grid_of(*source),
            x as int,
            y as int,
        ),
{
    let (_, _, sw, sh) = buffer_dims(source);
    let ghost c0 = buffer_cells(*screen);
    let ghost g = grid_of(*source);
    let rows = clip(y, sh, height);
    let cols = clip(x, sw, width);
    let mut sy: u16 = 0;
    while sy < rows
        invariant
            rows <= sh,
            cols <= sw,
            sy <= rows,
            rows < sh ==> y + rows >= height,
            cols < sw ==> x + cols >= width,
            y + rows <= height || rows == 0,
            x + cols <= width || cols == 0,
            sh == g.height,
            sw == g.width,
            g == grid_of(*source),
            is_grid(*source),
            screen_is(*old(screen), width, height),
            buffer_area(*screen) == buffer_area(*old(screen)),
            c0 == buffer_cells(*old(screen)),
            buffer_cells(*screen) == blit_upto(c0, g, x as int, y as int, sy as int, 0),
        decreases rows - sy,
    {
        let ty: u16 = y + sy;
        let mut sx: u16 = 0;
        while sx < cols
            invariant
                rows <= sh,
                cols <= sw,
                sy < rows,
                sx <= cols,
                cols < sw ==> x + cols >= width,
                x + cols <= width || cols == 0,
                ty == y + sy,
                ty < height,
                sh == g.height,
                sw == g.width,
                g == grid_of(*source),
                is_grid(*source),
                screen_is(*old(screen), width, height),
                buffer_area(*screen) == buffer_area(*old(screen)),
                c0 == buffer_cells(*old(screen)),
                buffer_cells(*screen) == blit_upto(c0, g, x as int, y as int, sy as int, sx as int),
            decreases cols - sx,
        {
            copy_cell(screen, x + sx, ty, source, sx, sy);
            proof {
                assert(buffer_cells(*screen) =~= blit_upto(
                    c0,
                    g,
                    x as int,
                    y as int,
                    sy as int,
                    sx + 1,
                ));
            }
            sx = sx + 1;
        }
        proof {
            assert(c0.dom() == grid_domain(width as int, height as int));
            assert forall|p: (int, int)| c0.dom().contains(p) implies blit_upto(
                c0,
                g,
                x as int,
                y as int,
                sy as int,
                cols as int,
            )[p] == blit_upto(c0, g, x as int, y as int, sy + 1, 0)[p] by {
                if p.1 - y == sy && x <= p.0 && p.0 - x >= cols && cols < sw {
                    assert(p.0 >= width);
                }
            }
            assert(buffer_cells(*screen) =~= blit_upto(c0, g, x as int, y as int, sy + 1, 0));
        }
        sy = sy + 1;
    }
    proof {
        assert(c0.dom() == grid_domain(width as int, height as int));
        assert forall|p: (int, int)| c0.dom().contains(p) implies blit_upto(
            c0,
            g,
            x as int,
            y as int,
            rows as int,
            0,
        )[p] == blit_cells(c0, g, x as int, y as int)[p] by {
            if y <= p.1 && p.1 - y >= rows && rows < sh {
                assert(p.1 >= height);
            }
        }
        assert(buffer_cells(*screen) =~= blit_cells(c0, g, x as int, y as int));
        assert(buffer_cells(*screen).dom() =~= grid_domain(width as int, height as int));
    }
}

/// Copy one view and its modeline onto the screen.
fn blit_view(screen: &mut Buffer, vb: &ViewBuffer, width: u16, height: u16)
    requires
        screen_is(*old(screen), width, height),
        vb.shaped(),
    ensures
        screen_is(*final(screen), width, height),
        buffer_area(*final(screen)) == buffer_area(*old(screen)),
        buffer_cells(*final(screen)) == blit_view_cells(buffer_cells(*old(screen)), vb.model()),
{
    blit(screen, &vb.buffer, vb.view.x, vb.view.y, width, height);
    if vb.view.has_modeline() {
        // One row immediately below the view, not its last row.
        let y = vb.view.y.saturating_add(vb.view.height);
        blit(screen, &vb.modeline, vb.view.x, y, width, height);
    }
}

/// `│`, drawn in the column Lem reserves left of each split.
fn vertical() -> (s: &'static str)
    ensures
        s@ == vertical_glyph(),
{
    proof {
        reveal_strlit("\u{2502}");
    }
    "\u{2502}"
}

/// The separator drawn down to row `row` of the view.
pub open spec fn separator_upto(c0: Map<(int, int), CellModel>, v: View, row: int) -> Map<
    (int, int),
    CellModel,
> {
    Map::new(
        |p: (int, int)| c0.dom().contains(p),
        |p: (int, int)|
            if v.x > 0 && p.0 == v.x - 1 && v.y <= p.1 < v.y + row {
                with_symbol(c0[p], vertical_glyph())
            } else {
                c0[p]
            },
    )
}

/// Draw the separator to the left of a split.
fn draw_separator(screen: &mut Buffer, view: &View, width: u16, height: u16)
    requires
        screen_is(*old(screen), width, height),
        view.spec_has_modeline() ==> view.height < u16::MAX,
    ensures
        screen_is(*final(screen), width, height),
        buffer_area(*final(screen)) == buffer_area(*old(screen)),
        buffer_cells(*final(screen)) == separator_cells(buffer_cells(*old(screen)), *view),
{
    let ghost c0 = buffer_cells(*screen);
    if view.x == 0 || view.x - 1 >= width {
        assert(buffer_cells(*screen) =~= separator_cells(c0, *view));
        return;
    }
    let x = view.x - 1;
    let spanned: u16 = view.height + if view.has_modeline() {
        1u16
    } else {
        0u16
    };
    let rows = clip(view.y, spanned, height);
    let glyph = vertical();
    let mut row: u16 = 0;
    assert(buffer_cells(*screen) =~= separator_upto(c0, *view, 0));
    while row < rows
        invariant
            spanned == rows_spanned(*view),
            rows <= spanned,
            row <= rows,
            rows < spanned ==> view.y + rows >= height,
            view.y + rows <= height || rows == 0,
            x == view.x - 1,
            view.x > 0,
            x < width,
            glyph@ == vertical_glyph(),
            screen_is(*old(screen), width, height),
            buffer_area(*screen) == buffer_area(*old(screen)),
            c0 == buffer_cells(*old(screen)),
            buffer_cells(*screen) == separator_upto(c0, *view, row as int),
        decreases rows - row,
    {
        set_symbol_at(screen, x, view.y + row, glyph);
        assert(buffer_cells(*screen) =~= separator_upto(c0, *view, row + 1));
        row = row + 1;
    }
    assert(c0.dom() == grid_domain(width as int, height as int));
    assert forall|p: (int, int)| c0.dom().contains(p) implies separator_upto(
        c0,
        *view,
        rows as int,
    )[p] == separator_cells(c0, *view)[p] by {
        if view.y + rows <= p.1 && rows < spanned {
            assert(p.1 >= height);
        }
    }
    assert(separator_upto(c0, *view, rows as int) =~= separator_cells(c0, *view));
    assert(buffer_cells(*screen).dom() =~= grid_domain(width as int, height as int));
}

/// The border drawn at the positions `done` selects so far.
pub open spec fn border_upto(
    c0: Map<(int, int), CellModel>,
    v: View,
    done: spec_fn((int, int)) -> bool,
) -> Map<(int, int), CellModel> {
    Map::new(
        |p: (int, int)| c0.dom().contains(p),
        |p: (int, int)|
            if done(p) {
                match border_glyph(v, p) {
                    Some(g) => with_symbol(c0[p], g),
                    None => c0[p],
                }
            } else {
                c0[p]
            },
    )
}

fn horizontal() -> (s: &'static str)
    ensures
        s@ == horizontal_glyph(),
{
    proof {
        reveal_strlit("\u{2500}");
    }
    "\u{2500}"
}

/// The top corners: rounded, or teeing into what is above a drop curtain.
fn top_corners(drop: bool) -> (r: (&'static str, &'static str))
    ensures
        r.0@ == if drop {
            seq!['\u{251c}']
        } else {
            seq!['\u{256d}']
        },
        r.1@ == if drop {
            seq!['\u{2524}']
        } else {
            seq!['\u{256e}']
        },
{
    proof {
        reveal_strlit("\u{251c}");
        reveal_strlit("\u{2524}");
        reveal_strlit("\u{256d}");
        reveal_strlit("\u{256e}");
    }
    if drop {
        ("\u{251c}", "\u{2524}")
    } else {
        ("\u{256d}", "\u{256e}")
    }
}

/// The bottom corners, `╰` and `╯`.
fn bottom_corners() -> (r: (&'static str, &'static str))
    ensures
        r.0@ == seq!['\u{2570}'],
        r.1@ == seq!['\u{256f}'],
{
    proof {
        reveal_strlit("\u{2570}");
        reveal_strlit("\u{256f}");
    }
    ("\u{2570}", "\u{256f}")
}

/// Write one cell, ignoring anything off-screen. Coordinates are signed
/// because a border is drawn outside its view, and a window flush against
/// the top or left edge puts part of it at -1.
fn put_cell(screen: &mut Buffer, x: i32, y: i32, symbol: &str, width: u16, height: u16)
    requires
        screen_is(*old(screen), width, height),
    ensures
        screen_is(*final(screen), width, height),
        buffer_area(*final(screen)) == buffer_area(*old(screen)),
        buffer_cells(*final(screen)) == if 0 <= x < width && 0 <= y < height {
            buffer_cells(*old(screen)).insert(
                (x as int, y as int),
                with_symbol(buffer_cells(*old(screen))[(x as int, y as int)], symbol@),
            )
        } else {
            buffer_cells(*old(screen))
        },
{
    if x < 0 || y < 0 || x >= width as i32 || y >= height as i32 {
        return;
    }
    set_symbol_at(screen, x as u16, y as u16, symbol);
    assert(buffer_cells(*screen).dom() =~= grid_domain(width as int, height as int));
}

/// Put the glyph the border has at `(x, y)` there, when the cell is not
/// yet drawn.
proof fn lemma_mark(
    c0: Map<(int, int), CellModel>,
    v: View,
    before: spec_fn((int, int)) -> bool,
    after: spec_fn((int, int)) -> bool,
    x: int,
    y: int,
    g: Seq<char>,
    cells: Map<(int, int), CellModel>,
)
    requires
        cells == border_upto(c0, v, before),
        border_glyph(v, (x, y)) == Some(g),
        !before((x, y)),
        forall|p: (int, int)| #[trigger] after(p) <==> (before(p) || p == (x, y)),
    ensures
        (if c0.dom().contains((x, y)) {
            cells.insert((x, y), with_symbol(cells[(x, y)], g))
        } else {
            cells
        }) == border_upto(c0, v, after),
{
    if c0.dom().contains((x, y)) {
        assert(cells.insert((x, y), with_symbol(cells[(x, y)], g)) =~= border_upto(c0, v, after));
    } else {
        assert(cells =~= border_upto(c0, v, after));
    }
}

/// Draw a floating window's border.
fn draw_border(screen: &mut Buffer, view: &View, width: u16, height: u16)
    requires
        screen_is(*old(screen), width, height),
    ensures
        screen_is(*final(screen), width, height),
        buffer_area(*final(screen)) == buffer_area(*old(screen)),
        buffer_cells(*final(screen)) == border_cells(buffer_cells(*old(screen)), *view),
{
    let ghost c0 = buffer_cells(*screen);
    let size: u16 = match view.border {
        Some(s) => s,
        None => 0,
    };
    if size == 0 {
        assert(buffer_cells(*screen) =~= border_cells(c0, *view));
        return;
    }
    let size = size as i32;
    let x = view.x as i32;
    let y = view.y as i32;
    let w = view.width as i32;
    let h = view.height as i32;
    let (left_border, drop) = match view.border_shape {
        Some(BorderShape::LeftBorder) => (true, false),
        Some(BorderShape::DropCurtain) => (false, true),
        None => (false, false),
    };
    let vertical = vertical();
    if left_border {
        let ghost done0 = |p: (int, int)| false;
        assert(buffer_cells(*screen) =~= border_upto(c0, *view, done0));
        let mut row: i32 = 0;
        while row < h
            invariant
                0 <= row <= h,
                h == view.height,
                x == view.x,
                y == view.y,
                view.border == Some(size as u16) && 0 < size <= u16::MAX,
                view.border_shape == Some(BorderShape::LeftBorder),
                vertical@ == vertical_glyph(),
                screen_is(*old(screen), width, height),
                screen_is(*screen, width, height),
                buffer_area(*screen) == buffer_area(*old(screen)),
                c0 == buffer_cells(*old(screen)),
                buffer_cells(*screen) == border_upto(
                    c0,
                    *view,
                    |p: (int, int)| p.0 == x - size && y <= p.1 < y + row,
                ),
            decreases h - row,
        {
            let ghost before = buffer_cells(*screen);
            put_cell(screen, x - size, y + row, vertical, width, height);
            proof {
                lemma_mark(
                    c0,
                    *view,
                    |p: (int, int)| p.0 == x - size && y <= p.1 < y + row,
                    |p: (int, int)| p.0 == x - size && y <= p.1 < y + row + 1,
                    x - size,
                    y + row,
                    vertical_glyph(),
                    before,
                );
            }
            row = row + 1;
        }
        assert(buffer_cells(*screen) =~= border_cells(c0, *view));
        return;
    }
    let left = x - size;
    let top = y - size;
    let right = left + w + 2 * size - 1;
    let bottom = top + h + 2 * size - 1;
    let (tl, tr) = top_corners(drop);
    let (bl, br) = bottom_corners();
    let ghost v = *view;
    let ghost c1 = |p: (int, int)| p == (left as int, top as int);
    let ghost c2 = |p: (int, int)| p == (left as int, top as int) || p == (right as int, top as int);
    let ghost c3 = |p: (int, int)|
        p == (left as int, top as int) || p == (right as int, top as int) || p == (
            left as int,
            bottom as int,
        );
    let ghost corners = |p: (int, int)|
        p == (left as int, top as int) || p == (right as int, top as int) || p == (
            left as int,
            bottom as int,
        ) || p == (right as int, bottom as int);
    assert(buffer_cells(*screen) =~= border_upto(c0, v, |p: (int, int)| false));
    let ghost s0 = buffer_cells(*screen);
    put_cell(screen, left, top, tl, width, height);
    proof {
        lemma_mark(c0, v, |p: (int, int)| false, c1, left as int, top as int, tl@, s0);
    }
    let ghost s1 = buffer_cells(*screen);
    put_cell(screen, right, top, tr, width, height);
    proof {
        lemma_mark(c0, v, c1, c2, right as int, top as int, tr@, s1);
    }
    let ghost s2 = buffer_cells(*screen);
    put_cell(screen, left, bottom, bl, width, height);
    proof {
        lemma_mark(c0, v, c2, c3, left as int, bottom as int, bl@, s2);
    }
    let ghost s3 = buffer_cells(*screen);
    put_cell(screen, right, bottom, br, width, height);
    proof {
        lemma_mark(c0, v, c3, corners, right as int, bottom as int, br@, s3);
    }
    let horizontal = horizontal();
    let mut column: i32 = left + 1;
    while column < right
        invariant
            left < column <= right,
            left == x - size,
            top == y - size,
            right == left + w + 2 * size - 1,
            bottom == top + h + 2 * size - 1,
            top < bottom,
            w == v.width,
            h == v.height,
            x == v.x,
            y == v.y,
            v == *view,
            v.border == Some(size as u16) && 0 < size <= u16::MAX,
            v.border_shape != Some(BorderShape::LeftBorder),
            horizontal@ == horizontal_glyph(),
            corners == (|p: (int, int)|
                p == (left as int, top as int) || p == (right as int, top as int) || p == (
                    left as int,
                    bottom as int,
                ) || p == (right as int, bottom as int)),
            screen_is(*old(screen), width, height),
            screen_is(*screen, width, height),
            buffer_area(*screen) == buffer_area(*old(screen)),
            c0 == buffer_cells(*old(screen)),
            buffer_cells(*screen) == border_upto(
                c0,
                v,
                |p: (int, int)| corners(p) || ((p.1 == top || p.1 == bottom) && left < p.0 < column),
            ),
        decreases right - column,
    {
        let ghost d0 = |p: (int, int)|
            corners(p) || ((p.1 == top || p.1 == bottom) && left < p.0 < column);
        let ghost d1 = |p: (int, int)|
            corners(p) || ((p.1 == top || p.1 == bottom) && left < p.0 < column) || p == (
                column as int,
                top as int,
            );
        let ghost d2 = |p: (int, int)|
            corners(p) || ((p.1 == top || p.1 == bottom) && left < p.0 < column + 1);
        let ghost before = buffer_cells(*screen);
        put_cell(screen, column, top, horizontal, width, height);
        proof {
            lemma_mark(c0, v, d0, d1, column as int, top as int, horizontal_glyph(), before);
        }
        let ghost mid = buffer_cells(*screen);
        put_cell(screen, column, bottom, horizontal, width, height);
        proof {
            lemma_mark(c0, v, d1, d2, column as int, bottom as int, horizontal_glyph(), mid);
        }
        column = column + 1;
    }
    let mut row: i32 = top + 1;
    while row < bottom
        invariant
            top < row <= bottom,
            left == x - size,
            top == y - size,
            right == left + w + 2 * size - 1,
            bottom == top + h + 2 * size - 1,
            left < right,
            w == v.width,
            h == v.height,
            x == v.x,
            y == v.y,
            v == *view,
            v.border == Some(size as u16) && 0 < size <= u16::MAX,
            v.border_shape != Some(BorderShape::LeftBorder),
            vertical@ == vertical_glyph(),
            corners == (|p: (int, int)|
                p == (left as int, top as int) || p == (right as int, top as int) || p == (
                    left as int,
                    bottom as int,
                ) || p == (right as int, bottom as int)),
            screen_is(*old(screen), width, height),
            screen_is(*screen, width, height),
            buffer_area(*screen) == buffer_area(*old(screen)),
            c0 == buffer_cells(*old(screen)),
            buffer_cells(*screen) == border_upto(
                c0,
                v,
                |p: (int, int)|
                    corners(p) || ((p.1 == top || p.1 == bottom) && left < p.0 < right) || ((p.0
                        == left || p.0 == right) && top < p.1 < row),
            ),
        decreases bottom - row,
    {
        let ghost d0 = |p: (int, int)|
            corners(p) || ((p.1 == top || p.1 == bottom) && left < p.0 < right) || ((p.0 == left
                || p.0 == right) && top < p.1 < row);
        let ghost d1 = |p: (int, int)|
            corners(p) || ((p.1 == top || p.1 == bottom) && left < p.0 < right) || ((p.0 == left
                || p.0 == right) && top < p.1 < row) || p == (left as int, row as int);
        let ghost d2 = |p: (int, int)|
            corners(p) || ((p.1 == top || p.1 == bottom) && left < p.0 < right) || ((p.0 == left
                || p.0 == right) && top < p.1 < row + 1);
        let ghost before = buffer_cells(*screen);
        put_cell(screen, left, row, vertical, width, height);
        proof {
            lemma_mark(c0, v, d0, d1, left as int, row as int, vertical_glyph(), before);
        }
        let ghost mid = buffer_cells(*screen);
        put_cell(screen, right, row, vertical, width, height);
        proof {
            lemma_mark(c0, v, d1, d2, right as int, row as int, vertical_glyph(), mid);
        }
        row = row + 1;
    }
    assert(buffer_cells(*screen) =~= border_cells(c0, v));
}

// ---------------------------------------------------------------------
// The registry of views.
// ---------------------------------------------------------------------

/// Painting order. Tiles are the background, floating windows the top.
fn layer(kind: ViewKind) -> (r: u8)
    ensures
        r == spec_layer(kind),
{
    match kind {
        ViewKind::Tile => 0,
        ViewKind::Header => 1,
        ViewKind::Floating => 2,
    }
}

/// The index of the first view with `id`, or -1.
pub open spec fn find_view(s: Seq<ViewModel>, id: u64) -> int
    decreases s.len(),
{
    if s.len() == 0 {
        -1
    } else if find_view(s.drop_last(), id) >= 0 {
        find_view(s.drop_last(), id)
    } else if s.last().view.id == id {
        s.len() - 1
    } else {
        -1
    }
}

/// The views without those with `id`.
pub open spec fn without(s: Seq<ViewModel>, id: u64) -> Seq<ViewModel>
    decreases s.len(),
{
    if s.len() == 0 {
        Seq::empty()
    } else if s.last().view.id == id {
        without(s.drop_last(), id)
    } else {
        without(s.drop_last(), id).push(s.last())
    }
}

/// A new view: blank buffers of its size, and a one-row modeline.
pub open spec fn fresh_view(view: View) -> ViewModel {
    ViewModel {
        view,
        buffer: Grid {
            width: view.width as int,
            height: view.height as int,
            cells: blank_cells(view.width as int, view.height as int),
        },
        modeline: Grid { width: view.width as int, height: 1, cells: blank_cells(view.width as int, 1) },
    }
}

/// A view resized: its contents are discarded.
pub open spec fn resized(m: ViewModel, width: u16, height: u16) -> ViewModel {
    fresh_view(View { width, height, ..m.view })
}

/// A view moved: its contents are kept.
pub open spec fn moved(m: ViewModel, x: u16, y: u16) -> ViewModel {
    ViewModel { view: View { x, y, ..m.view }, ..m }
}


/// `find_view` is the first index with the id.
proof fn lemma_find_at(s: Seq<ViewModel>, id: u64, i: int)
    requires
        0 <= i < s.len(),
        s[i].view.id == id,
        forall|j: int| 0 <= j < i ==> s[j].view.id != id,
    ensures
        find_view(s, id) == i,
    decreases s.len(),
{
    if i < s.len() - 1 {
        lemma_find_at(s.drop_last(), id, i);
    } else {
        lemma_find_none(s.drop_last(), id);
    }
}

/// Without the id, `find_view` is -1.
proof fn lemma_find_none(s: Seq<ViewModel>, id: u64)
    requires
        forall|j: int| 0 <= j < s.len() ==> s[j].view.id != id,
    ensures
        find_view(s, id) == -1,
    decreases s.len(),
{
    if s.len() > 0 {
        lemma_find_none(s.drop_last(), id);
    }
}

/// The views of one layer among the first `i + 1`.
proof fn lemma_layer_step(s: Seq<ViewModel>, kind: ViewKind, i: int)
    requires
        0 <= i < s.len(),
    ensures
        layer_of(s.take(i + 1), kind) == if is_editor(s[i]) && s[i].view.kind == kind {
            layer_of(s.take(i), kind).push(s[i])
        } else {
            layer_of(s.take(i), kind)
        },
{
    assert(s.take(i + 1).drop_last() =~= s.take(i));
    assert(s.take(i + 1).last() == s[i]);
}

/// The kind painted at a level above the tiles.
pub open spec fn kind_at(level: u8) -> ViewKind {
    if level == 1 {
        ViewKind::Header
    } else {
        ViewKind::Floating
    }
}

/// Every live view, in insertion order.
pub struct Registry {
    views: Vec<ViewBuffer>,
}

impl Registry {
    /// The views, in insertion order.
    pub closed spec fn models(&self) -> Seq<ViewModel> {
        models_of(self.views@)
    }

    /// Every view's buffers start at the origin and hold every cell.
    pub closed spec fn shaped(&self) -> bool {
        forall|i: int| 0 <= i < self.views@.len() ==> (#[trigger] self.views@[i]).shaped()
    }

    /// Add a view with blank buffers, replacing any existing one with the
    /// same id.
    pub fn insert(&mut self, view: View)
        requires
            old(self).shaped(),
        ensures
            final(self).shaped(),
            final(self).models() == without(old(self).models(), view.id).push(fresh_view(view)),
    {
        let buffer = blank_buffer(view.width, view.height);
        let modeline = blank_buffer(view.width, 1);
        self.remove(view.id);
        let vb = ViewBuffer { view, buffer, modeline };
        assert(vb.model() =~= fresh_view(view));
        assert(buffer_cells(vb.buffer).dom() =~= grid_domain(view.width as int, view.height as int));
        assert(buffer_cells(vb.modeline).dom() =~= grid_domain(view.width as int, 1));
        let ghost mid = self.views@;
        self.views.push(vb);
        proof {
            assert forall|j: int| 0 <= j < self.views@.len() implies (#[trigger] self.views@[j]).shaped() by {
                if j < mid.len() {
                    assert(self.views@[j] == mid[j]);
                }
            }
            assert(self.views@.drop_last() =~= mid);
            assert(models_of(self.views@) =~= without(old(self).models(), view.id).push(
                fresh_view(view),
            )) by {
                assert(self.views@.len() == without(old(self).models(), view.id).len() + 1);
            }
        }
    }

    /// Forget the views with `id`.
    pub fn remove(&mut self, id: u64)
        requires
            old(self).shaped(),
        ensures
            final(self).shaped(),
            final(self).models() == without(old(self).models(), id),
    {
        let ghost all = self.views@;
        let mut i: usize = 0;
        let ghost mut k: int = 0;
        assert(models_of(all.take(0)) =~= Seq::<ViewModel>::empty());
        while i < self.views.len()
            invariant
                i <= self.views@.len(),
                0 <= k <= all.len(),
                self.views@.len() - i == all.len() - k,
                self.views@.skip(i as int) =~= all.skip(k),
                models_of(self.views@.take(i as int)) =~= without(models_of(all.take(k)), id),
                forall|j: int| 0 <= j < all.len() ==> (#[trigger] all[j]).shaped(),
                forall|j: int| 0 <= j < self.views@.len() ==> (#[trigger] self.views@[j]).shaped(),
                all == old(self).views@,
            decreases self.views@.len() - i,
        {
            assert(all.skip(k)[0] == self.views@.skip(i as int)[0]);
            assert(all[k] == self.views@[i as int]);
            assert(all.take(k + 1).drop_last() =~= all.take(k));
            assert(models_of(all.take(k + 1)).drop_last() =~= models_of(all.take(k)));
            if self.views[i].view.id == id {
                let ghost before = self.views@;
                let _ = self.views.remove(i);
                proof {
                    assert(self.views@.take(i as int) =~= before.take(i as int));
                    assert forall|j: int| 0 <= j < all.len() - k - 1 implies #[trigger] self.views@.skip(
                        i as int,
                    )[j] == all.skip(k + 1)[j] by {
                        assert(before.skip(i as int)[j + 1] == all.skip(k)[j + 1]);
                        assert(self.views@[i + j] == before[i + j + 1]);
                    }
                    assert(self.views@.skip(i as int) =~= all.skip(k + 1));
                    k = k + 1;
                }
            } else {
                proof {
                    assert(self.views@.take(i + 1).drop_last() =~= self.views@.take(i as int));
                    assert(models_of(self.views@.take(i + 1)) =~= models_of(
                        self.views@.take(i as int),
                    ).push(self.views@[i as int].model()));
                    assert forall|j: int| 0 <= j < all.len() - k - 1 implies #[trigger] self.views@.skip(
                        i + 1,
                    )[j] == all.skip(k + 1)[j] by {
                        assert(self.views@.skip(i as int)[j + 1] == all.skip(k)[j + 1]);
                    }
                    assert(self.views@.skip(i + 1) =~= all.skip(k + 1));
                    k = k + 1;
                }
                i = i + 1;
            }
        }
        proof {
            assert(all.skip(k).len() == 0);
            assert(all.take(k) =~= all);
            assert(self.views@.take(i as int) =~= self.views@);
        }
    }

    /// The first view with `id`, to paint into. Nothing else changes.
    pub fn get_mut(&mut self, id: u64) -> (r: Option<&mut ViewBuffer>)
        ensures
            r is Some <==> find_view(old(self).models(), id) >= 0,
            match r {
                Some(vb) => {
                    let i = find_view(old(self).models(), id);
                    &&& vb.model() == old(self).models()[i]
                    &&& (old(self).shaped() ==> vb.shaped())
                    &&& final(self).models() == old(self).models().update(i, final(vb).model())
                    &&& (old(self).shaped() && final(vb).shaped() ==> final(self).shaped())
                },
                None => *final(self) == *old(self),
            },
    {
        let ghost m = self.models();
        let mut i: usize = 0;
        while i < self.views.len()
            invariant
                *self == *old(self),
                m == self.models(),
                i <= self.views@.len(),
                forall|j: int| 0 <= j < i ==> m[j].view.id != id,
            decreases self.views@.len() - i,
        {
            if self.views[i].view.id == id {
                proof {
                    lemma_find_at(m, id, i as int);
                }
                let ghost before = self.views@;
                let r = &mut self.views[i];
                proof {
                    assert(m[i as int] == before[i as int].model());
                }
                return Some(r);
            }
            i = i + 1;
        }
        proof {
            lemma_find_none(m, id);
        }
        None
    }

    /// Resize a view's buffers, discarding their contents: Lem repaints a
    /// resized view in the same frame, and a stale-size buffer would
    /// mis-clip the writes that follow. An unknown id changes nothing.
    pub fn resize(&mut self, id: u64, width: u16, height: u16)
        requires
            old(self).shaped(),
        ensures
            final(self).shaped(),
            final(self).models() == if find_view(old(self).models(), id) >= 0 {
                old(self).models().update(
                    find_view(old(self).models(), id),
                    resized(old(self).models()[find_view(old(self).models(), id)], width, height),
                )
            } else {
                old(self).models()
            },
    {
        if let Some(vb) = self.get_mut(id) {
            vb.view.width = width;
            vb.view.height = height;
            vb.buffer = blank_buffer(width, height);
            vb.modeline = blank_buffer(width, 1);
            assert(buffer_cells(vb.buffer).dom() =~= grid_domain(width as int, height as int));
            assert(buffer_cells(vb.modeline).dom() =~= grid_domain(width as int, 1));
            assert(vb.model() =~= resized(old(self).models()[find_view(old(self).models(), id)], width, height));
        }
    }

    /// Reposition a view, keeping its contents. An unknown id changes
    /// nothing.
    pub fn move_to(&mut self, id: u64, x: u16, y: u16)
        requires
            old(self).shaped(),
        ensures
            final(self).shaped(),
            final(self).models() == if find_view(old(self).models(), id) >= 0 {
                old(self).models().update(
                    find_view(old(self).models(), id),
                    moved(old(self).models()[find_view(old(self).models(), id)], x, y),
                )
            } else {
                old(self).models()
            },
    {
        if let Some(vb) = self.get_mut(id) {
            vb.view.x = x;
            vb.view.y = y;
            assert(vb.model() =~= moved(old(self).models()[find_view(old(self).models(), id)], x, y));
        }
    }

    /// Copy the views of the layer at `level` onto the screen in insertion
    /// order, each ringed by its border first: it rings the view rather
    /// than overlapping it, and drawing it first keeps a neighbouring
    /// window's content from being clipped by the frame.
    fn frame_layer(&self, screen: &mut Buffer, level: u8, width: u16, height: u16)
        requires
            self.shaped(),
            level == 1 || level == 2,
            screen_is(*old(screen), width, height),
        ensures
            screen_is(*final(screen), width, height),
            buffer_area(*final(screen)) == buffer_area(*old(screen)),
            buffer_cells(*final(screen)) == frame_all(
                layer_of(self.models(), kind_at(level)),
                buffer_cells(*old(screen)),
            ),
    {
        let ghost c0 = buffer_cells(*screen);
        let ghost m = self.models();
        let n = self.views.len();
        let mut i: usize = 0;
        assert(m.take(0) =~= Seq::<ViewModel>::empty());
        while i < n
            invariant
                n == self.views@.len(),
                m == self.models(),
                self.shaped(),
                level == 1 || level == 2,
                i <= n,
                screen_is(*screen, width, height),
                buffer_area(*screen) == buffer_area(*old(screen)),
                c0 == buffer_cells(*old(screen)),
                buffer_cells(*screen) == frame_all(layer_of(m.take(i as int), kind_at(level)), c0),
            decreases n - i,
        {
            let vb = &self.views[i];
            proof {
                lemma_layer_step(m, kind_at(level), i as int);
                assert(m[i as int] == vb.model());
                assert(vb.shaped());
            }
            if vb.view.content_type == ViewType::Editor && layer(vb.view.kind) == level {
                let ghost before = layer_of(m.take(i as int), kind_at(level));
                draw_border(screen, &vb.view, width, height);
                blit_view(screen, vb, width, height);
                proof {
                    assert(before.push(m[i as int]).drop_last() =~= before);
                }
            }
            i = i + 1;
        }
        assert(m.take(n as int) =~= m);
    }

    /// Blit every paintable view into `screen`: tiles, then the separators
    /// between them, then headers, then floating windows on top. Html
    /// views are skipped.
    pub fn composite(&self, screen: &mut Buffer)
        requires
            self.shaped(),
            is_grid(*old(screen)),
            separators_fit(self.models()),
        ensures
            is_grid(*final(screen)),
            buffer_area(*final(screen)) == buffer_area(*old(screen)),
            buffer_cells(*final(screen)) == composite_cells(self.models(), buffer_cells(*old(screen))),
    {
        let (_, _, width, height) = buffer_dims(screen);
        let ghost c0 = buffer_cells(*screen);
        let ghost m = self.models();
        let ghost tiles = layer_of(m, ViewKind::Tile);
        let n = self.views.len();
        assert(m.take(0) =~= Seq::<ViewModel>::empty());
        let mut i: usize = 0;
        while i < n
            invariant
                n == self.views@.len(),
                m == self.models(),
                self.shaped(),
                i <= n,
                screen_is(*screen, width, height),
                buffer_area(*screen) == buffer_area(*old(screen)),
                c0 == buffer_cells(*old(screen)),
                buffer_cells(*screen) == blit_all(layer_of(m.take(i as int), ViewKind::Tile), c0),
            decreases n - i,
        {
            let vb = &self.views[i];
            proof {
                lemma_layer_step(m, ViewKind::Tile, i as int);
                assert(m[i as int] == vb.model());
                assert(vb.shaped());
            }
            if vb.view.content_type == ViewType::Editor && layer(vb.view.kind) == 0 {
                let ghost before = layer_of(m.take(i as int), ViewKind::Tile);
                blit_view(screen, vb, width, height);
                proof {
                    assert(before.push(m[i as int]).drop_last() =~= before);
                }
            }
            i = i + 1;
        }
        assert(m.take(n as int) =~= m);
        let ghost c1 = buffer_cells(*screen);
        let mut i: usize = 0;
        while i < n
            invariant
                n == self.views@.len(),
                m == self.models(),
                self.shaped(),
                separators_fit(m),
                i <= n,
                screen_is(*screen, width, height),
                buffer_area(*screen) == buffer_area(*old(screen)),
                c1 == blit_all(tiles, c0),
                tiles == layer_of(m, ViewKind::Tile),
                buffer_cells(*screen) == separate_all(layer_of(m.take(i as int), ViewKind::Tile), c1),
            decreases n - i,
        {
            let vb = &self.views[i];
            proof {
                lemma_layer_step(m, ViewKind::Tile, i as int);
                assert(m[i as int] == vb.model());
            }
            if vb.view.content_type == ViewType::Editor && layer(vb.view.kind) == 0 {
                let ghost before = layer_of(m.take(i as int), ViewKind::Tile);
                assert(m[i as int].view.kind == ViewKind::Tile);
                draw_separator(screen, &vb.view, width, height);
                proof {
                    assert(before.push(m[i as int]).drop_last() =~= before);
                }
            }
            i = i + 1;
        }
        assert(m.take(n as int) =~= m);
        self.frame_layer(screen, 1, width, height);
        self.frame_layer(screen, 2, width, height);
    }

    /// Whether every painted tile with a modeline leaves room below it for
    /// its separator's extra row.
    pub fn separators_fit(&self) -> (r: bool)
        ensures
            r == separators_fit(self.models()),
    {
        let n = self.views.len();
        let mut i: usize = 0;
        while i < n
            invariant
                n == self.views@.len(),
                i <= n,
                forall|j: int|
                    0 <= j < i && is_editor(self.models()[j]) && #[trigger] self.models()[j].view.kind
                        == ViewKind::Tile && self.models()[j].view.spec_has_modeline()
                        ==> self.models()[j].view.height < u16::MAX,
            decreases n - i,
        {
            let v = &self.views[i].view;
            proof {
                assert(self.models()[i as int].view == *v);
            }
            if v.content_type == ViewType::Editor && layer(v.kind) == 0 && v.has_modeline()
                && v.height == u16::MAX {
                return false;
            }
            i = i + 1;
        }
        true
    }

    /// How many views are tracked, html ones included.
    pub fn len(&self) -> (r: usize)
        ensures
            r == self.models().len(),
    {
        self.views.len()
    }

    pub fn is_empty(&self) -> (r: bool)
        ensures
            r == (self.models().len() == 0),
    {
        self.views.len() == 0
    }
}

impl Default for Registry {
    fn default() -> (r: Self)
        ensures
            r.models() == Seq::<ViewModel>::empty(),
            r.shaped(),
    {
        let r = Registry { views: Vec::new() };
        assert(r.models() =~= Seq::<ViewModel>::empty());
        r
    }
}

} // verus!
