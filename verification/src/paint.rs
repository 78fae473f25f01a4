//! Turning protocol paint commands into cells.

use vstd::prelude::*;

use crate::cells::{
    blank_cell, buffer_area, buffer_cells, buffer_dims, grid_of, grid_row, is_grid, reset_at,
    set_stringn, stringn_row, Grid,
};
use crate::protocol::Put;
use crate::style::{style_for, style_of, Style};
use crate::views::ViewBuffer;

verus! {

/// The style a paint command asks for: its attribute's, or none.
pub open spec fn put_style(put: Put) -> Style {
    match put.attribute {
        Some(a) => style_for(a),
        None => Style::plain(),
    }
}

/// A grid after `put`: its row `put.y` painted as `Buffer::set_stringn`
/// paints it, up to `text_width` columns; nothing when the row is off
/// the grid.
pub open spec fn put_grid(g: Grid, put: Put) -> Grid {
    if put.y >= g.height {
        g
    } else {
        let row = stringn_row(
            grid_row(g.cells, g.width, put.y as int),
            put.x,
            put.text@,
            put.text_width as usize,
            put_style(put),
        ).0;
        Grid {
            cells: Map::new(
                |q: (int, int)| g.cells.dom().contains(q),
                |q: (int, int)|
                    if q.1 == put.y {
                        row[q.0]
                    } else {
                        g.cells[q]
                    },
            ),
            ..g
        }
    }
}

/// A grid with row `y` blanked from column `x`.
pub open spec fn clear_eol_grid(g: Grid, x: u16, y: u16) -> Grid {
    Grid {
        cells: Map::new(
            |q: (int, int)| g.cells.dom().contains(q),
            |q: (int, int)|
                if q.1 == y && q.0 >= x {
                    blank_cell()
                } else {
                    g.cells[q]
                },
        ),
        ..g
    }
}

/// A grid with every row from `y` down blanked.
pub open spec fn clear_eob_grid(g: Grid, y: u16) -> Grid {
    Grid {
        cells: Map::new(
            |q: (int, int)| g.cells.dom().contains(q),
            |q: (int, int)|
                if q.1 >= y {
                    blank_cell()
                } else {
                    g.cells[q]
                },
        ),
        ..g
    }
}

/// Paint one run into a buffer, unless its row is off the buffer:
/// `Buffer::set_stringn` clips columns but not rows.
fn put_into(buffer: &mut ratatui_core::buffer::Buffer, put: &Put)
    requires
        is_grid(*old(buffer)),
    ensures
        is_grid(*final(buffer)),
        grid_of(*final(buffer)) == put_grid(grid_of(*old(buffer)), *put),
{
    let (_, _, _, height) = buffer_dims(buffer);
    if put.y >= height {
        return;
    }
    let style = match &put.attribute {
        Some(attribute) => style_of(attribute),
        None => Style::default(),
    };
    let ghost old_cells = buffer_cells(*buffer);
    let ghost w = buffer_area(*buffer).2 as int;
    set_stringn(buffer, put.x, put.y, put.text.as_str(), put.text_width as usize, style);
    proof {
        let g = grid_of(*old(buffer));
        let row = stringn_row(
            grid_row(old_cells, w, put.y as int),
            put.x,
            put.text@,
            put.text_width as usize,
            put_style(*put),
        ).0;
        assert forall|q: (int, int)| old_cells.dom().contains(q) implies buffer_cells(
            *buffer,
        )[q] == (if q.1 == put.y {
            row[q.0]
        } else {
            old_cells[q]
        }) by {
            if q.1 == put.y {
                assert(grid_row(buffer_cells(*buffer), w, put.y as int)[q.0] == buffer_cells(
                    *buffer,
                )[q]);
            }
        }
        assert(buffer_cells(*buffer) =~= put_grid(g, *put).cells);
    }
}

/// Paint one run of text into a view.
pub fn put(vb: &mut ViewBuffer, put: &Put)
    requires
        is_grid(old(vb).buffer),
    ensures
        final(vb).view == old(vb).view,
        final(vb).modeline == old(vb).modeline,
        is_grid(final(vb).buffer),
        grid_of(final(vb).buffer) == put_grid(grid_of(old(vb).buffer), *put),
{
    put_into(&mut vb.buffer, put);
}

/// Paint one run of text into a view's modeline, the extra row below it,
/// whose coordinates start at row 0.
pub fn modeline_put(vb: &mut ViewBuffer, put: &Put)
    requires
        is_grid(old(vb).modeline),
    ensures
        final(vb).view == old(vb).view,
        final(vb).buffer == old(vb).buffer,
        is_grid(final(vb).modeline),
        grid_of(final(vb).modeline) == put_grid(grid_of(old(vb).modeline), *put),
{
    put_into(&mut vb.modeline, put);
}

/// Blank the rest of row `y` from column `x`.
pub fn clear_eol(vb: &mut ViewBuffer, x: u16, y: u16)
    requires
        is_grid(old(vb).buffer),
    ensures
        final(vb).view == old(vb).view,
        final(vb).modeline == old(vb).modeline,
        is_grid(final(vb).buffer),
        grid_of(final(vb).buffer) == clear_eol_grid(grid_of(old(vb).buffer), x, y),
{
    let (_, _, width, height) = buffer_dims(&vb.buffer);
    let ghost g = grid_of(vb.buffer);
    if y >= height {
        assert(buffer_cells(vb.buffer) =~= clear_eol_grid(g, x, y).cells);
        return;
    }
    let mut cx: u16 = x;
    while cx < width
        invariant
            y < height,
            width == g.width,
            height == g.height,
            vb.view == old(vb).view,
            vb.modeline == old(vb).modeline,
            g == grid_of(old(vb).buffer),
            is_grid(old(vb).buffer),
            buffer_area(vb.buffer) == buffer_area(old(vb).buffer),
            x <= cx,
            buffer_cells(vb.buffer) == Map::new(
                |q: (int, int)| g.cells.dom().contains(q),
                |q: (int, int)|
                    if q.1 == y && x <= q.0 < cx {
                        blank_cell()
                    } else {
                        g.cells[q]
                    },
            ),
        decreases width - cx,
    {
        let ghost before = buffer_cells(vb.buffer);
        reset_at(&mut vb.buffer, cx, y);
        proof {
            assert(buffer_cells(vb.buffer) =~= Map::new(
                |q: (int, int)| g.cells.dom().contains(q),
                |q: (int, int)|
                    if q.1 == y && x <= q.0 < cx + 1 {
                        blank_cell()
                    } else {
                        g.cells[q]
                    },
            ));
        }
        cx = cx + 1;
    }
    assert(buffer_cells(vb.buffer) =~= clear_eol_grid(g, x, y).cells);
}

/// Blank every row from `y` downwards.
pub fn clear_eob(vb: &mut ViewBuffer, y: u16)
    requires
        is_grid(old(vb).buffer),
    ensures
        final(vb).view == old(vb).view,
        final(vb).modeline == old(vb).modeline,
        is_grid(final(vb).buffer),
        grid_of(final(vb).buffer) == clear_eob_grid(grid_of(old(vb).buffer), y),
{
    let (_, _, width, height) = buffer_dims(&vb.buffer);
    let ghost g = grid_of(vb.buffer);
    let mut cy: u16 = y;
    while cy < height
        invariant
            width == g.width,
            height == g.height,
            y <= cy,
            vb.view == old(vb).view,
            vb.modeline == old(vb).modeline,
            g == grid_of(old(vb).buffer),
            is_grid(old(vb).buffer),
            buffer_area(vb.buffer) == buffer_area(old(vb).buffer),
            buffer_cells(vb.buffer) == Map::new(
                |q: (int, int)| g.cells.dom().contains(q),
                |q: (int, int)|
                    if y <= q.1 < cy {
                        blank_cell()
                    } else {
                        g.cells[q]
                    },
            ),
        decreases height - cy,
    {
        let mut cx: u16 = 0;
        while cx < width
            invariant
                cy < height,
                width == g.width,
                height == g.height,
                y <= cy,
                vb.view == old(vb).view,
                vb.modeline == old(vb).modeline,
                g == grid_of(old(vb).buffer),
                is_grid(old(vb).buffer),
                buffer_area(vb.buffer) == buffer_area(old(vb).buffer),
                buffer_cells(vb.buffer) == Map::new(
                    |q: (int, int)| g.cells.dom().contains(q),
                    |q: (int, int)|
                        if (y <= q.1 < cy) || (q.1 == cy && q.0 < cx) {
                            blank_cell()
                        } else {
                            g.cells[q]
                        },
                ),
            decreases width - cx,
        {
            reset_at(&mut vb.buffer, cx, cy);
            proof {
                assert(buffer_cells(vb.buffer) =~= Map::new(
                    |q: (int, int)| g.cells.dom().contains(q),
                    |q: (int, int)|
                        if (y <= q.1 < cy) || (q.1 == cy && q.0 < cx + 1) {
                            blank_cell()
                        } else {
                            g.cells[q]
                        },
                ));
            }
            cx = cx + 1;
        }
        proof {
            assert(buffer_cells(vb.buffer) =~= Map::new(
                |q: (int, int)| g.cells.dom().contains(q),
                |q: (int, int)|
                    if y <= q.1 < cy + 1 {
                        blank_cell()
                    } else {
                        g.cells[q]
                    },
            ));
        }
        cy = cy + 1;
    }
    assert(buffer_cells(vb.buffer) =~= clear_eob_grid(g, y).cells);
}

/// Clearing to the end of a line blanks row `y` from column `x` to the
/// right edge, whatever `x` is, and leaves every other cell and the
/// grid's size as they were.
pub proof fn lemma_clear_eol_blanks_the_rest_of_the_row(g: Grid, x: u16, y: u16)
    ensures
        clear_eol_grid(g, x, y).width == g.width,
        clear_eol_grid(g, x, y).height == g.height,
        clear_eol_grid(g, x, y).cells.dom() == g.cells.dom(),
        forall|cx: int|
            #![trigger clear_eol_grid(g, x, y).cells[(cx, y as int)]]
            x <= cx && g.cells.dom().contains((cx, y as int)) ==> clear_eol_grid(g, x, y).cells[(
                cx,
                y as int,
            )] == blank_cell(),
        forall|p: (int, int)|
            #![trigger clear_eol_grid(g, x, y).cells[p]]
            g.cells.dom().contains(p) && (p.1 != y || p.0 < x) ==> clear_eol_grid(g, x, y).cells[p]
                == g.cells[p],
{
    assert(clear_eol_grid(g, x, y).cells.dom() =~= g.cells.dom());
}

/// Clearing to the end of the buffer blanks every row from `y` down and
/// leaves the rows above it and the grid's size as they were.
pub proof fn lemma_clear_eob_blanks_from_the_row_down(g: Grid, y: u16)
    ensures
        clear_eob_grid(g, y).width == g.width,
        clear_eob_grid(g, y).height == g.height,
        clear_eob_grid(g, y).cells.dom() == g.cells.dom(),
        forall|p: (int, int)|
            #![trigger clear_eob_grid(g, y).cells[p]]
            g.cells.dom().contains(p) ==> clear_eob_grid(g, y).cells[p] == if p.1 >= y {
                blank_cell()
            } else {
                g.cells[p]
            },
{
    assert(clear_eob_grid(g, y).cells.dom() =~= g.cells.dom());
}

/// A paint command changes only its own row, and nothing at all when that
/// row is off the grid; the grid keeps its size and positions.
pub proof fn lemma_put_touches_only_its_row(g: Grid, put: Put)
    ensures
        put_grid(g, put).width == g.width,
        put_grid(g, put).height == g.height,
        put_grid(g, put).cells.dom() == g.cells.dom(),
        put.y >= g.height ==> put_grid(g, put) == g,
        forall|p: (int, int)|
            #![trigger put_grid(g, put).cells[p]]
            g.cells.dom().contains(p) && p.1 != put.y ==> put_grid(g, put).cells[p] == g.cells[p],
{
    assert(put_grid(g, put).cells.dom() =~= g.cells.dom());
}

} // verus!
