use lem_ratatui::protocol::{BorderShape, View, ViewKind, ViewType};
use lem_ratatui::views::Registry;
use ratatui_core::buffer::Buffer;
use ratatui_core::layout::Rect;

fn view(id: u64, x: u16, y: u16, w: u16, h: u16, kind: ViewKind) -> View {
    View {
        id,
        x,
        y,
        width: w,
        height: h,
        use_modeline: None,
        kind,
        content_type: ViewType::Editor,
        border: None,
        border_shape: None,
    }
}

fn fill(registry: &mut Registry, id: u64, ch: char) {
    let vb = registry.get_mut(id).expect("view should exist");
    let area = vb.buffer.area;
    for y in 0..area.height {
        for x in 0..area.width {
            vb.buffer[(x, y)].set_char(ch);
        }
    }
}

#[test]
fn floating_views_paint_over_tiles() {
    let mut registry = Registry::default();
    registry.insert(view(1, 0, 0, 10, 4, ViewKind::Tile));
    registry.insert(view(2, 2, 1, 4, 2, ViewKind::Floating));
    fill(&mut registry, 1, 't');
    fill(&mut registry, 2, 'f');

    let mut screen = Buffer::empty(Rect::new(0, 0, 10, 4));
    registry.composite(&mut screen);

    assert_eq!(screen[(0, 0)].symbol(), "t");
    assert_eq!(screen[(3, 1)].symbol(), "f", "floating must win");
    assert_eq!(screen[(3, 3)].symbol(), "t", "below the floating view");
}

#[test]
fn layer_order_does_not_depend_on_insertion_order() {
    let mut registry = Registry::default();
    registry.insert(view(2, 0, 0, 4, 1, ViewKind::Floating));
    registry.insert(view(1, 0, 0, 4, 1, ViewKind::Tile));
    fill(&mut registry, 2, 'f');
    fill(&mut registry, 1, 't');

    let mut screen = Buffer::empty(Rect::new(0, 0, 4, 1));
    registry.composite(&mut screen);
    assert_eq!(screen[(0, 0)].symbol(), "f", "floating wins regardless");
}

#[test]
fn removing_a_view_exposes_what_was_under_it() {
    let mut registry = Registry::default();
    registry.insert(view(1, 0, 0, 6, 2, ViewKind::Tile));
    registry.insert(view(2, 1, 0, 2, 1, ViewKind::Floating));
    fill(&mut registry, 1, 't');
    fill(&mut registry, 2, 'f');
    registry.remove(2);

    let mut screen = Buffer::empty(Rect::new(0, 0, 6, 2));
    registry.composite(&mut screen);
    assert_eq!(screen[(1, 0)].symbol(), "t");
}

#[test]
fn html_views_are_tracked_but_never_painted() {
    // Lem's tabbar is an html header occupying the top rows. A
    // terminal cannot render it, and painting its blank buffer would
    // wipe whatever is beneath.
    let mut registry = Registry::default();
    registry.insert(view(1, 0, 0, 6, 2, ViewKind::Tile));
    let mut tabbar = view(2, 0, 0, 6, 1, ViewKind::Header);
    tabbar.content_type = ViewType::Html;
    registry.insert(tabbar);
    fill(&mut registry, 1, 't');

    assert!(registry.get_mut(2).is_some(), "still tracked");
    let mut screen = Buffer::empty(Rect::new(0, 0, 6, 2));
    registry.composite(&mut screen);
    assert_eq!(screen[(0, 0)].symbol(), "t", "tile shows through");
}

#[test]
fn the_modeline_sits_one_row_below_the_view() {
    // Lem allocates the modeline as an extra row: a view of height 2
    // at y=1 owns screen rows 1-2, and its modeline is row 3. Painting
    // it into the view would overwrite the buffer's first line.
    let mut registry = Registry::default();
    let mut v = view(1, 0, 1, 4, 2, ViewKind::Tile);
    v.use_modeline = Some(true);
    registry.insert(v);
    fill(&mut registry, 1, 'b');
    {
        let vb = registry.get_mut(1).unwrap();
        for x in 0..4 {
            vb.modeline[(x, 0)].set_char('m');
        }
    }

    let mut screen = Buffer::empty(Rect::new(0, 0, 4, 5));
    registry.composite(&mut screen);

    assert_eq!(screen[(0, 1)].symbol(), "b", "first buffer row intact");
    assert_eq!(screen[(0, 2)].symbol(), "b", "last buffer row");
    assert_eq!(screen[(0, 3)].symbol(), "m", "modeline below the view");
}

#[test]
fn a_view_without_a_modeline_reserves_no_row() {
    let mut registry = Registry::default();
    registry.insert(view(1, 0, 0, 4, 1, ViewKind::Tile));
    fill(&mut registry, 1, 'b');
    {
        let vb = registry.get_mut(1).unwrap();
        vb.modeline[(0, 0)].set_char('m');
    }
    let mut screen = Buffer::empty(Rect::new(0, 0, 4, 3));
    registry.composite(&mut screen);
    assert_eq!(screen[(0, 0)].symbol(), "b");
    assert_eq!(screen[(0, 1)].symbol(), " ", "no modeline painted");
}

#[test]
fn a_split_gets_a_separator_in_its_reserved_column() {
    let mut registry = Registry::default();
    registry.insert(view(1, 0, 0, 4, 2, ViewKind::Tile));
    let mut right = view(2, 6, 0, 4, 2, ViewKind::Tile);
    right.use_modeline = Some(true);
    registry.insert(right);
    fill(&mut registry, 1, 'l');
    fill(&mut registry, 2, 'r');

    let mut screen = Buffer::empty(Rect::new(0, 0, 12, 4));
    registry.composite(&mut screen);

    assert_eq!(screen[(5, 0)].symbol(), "\u{2502}", "separator column");
    assert_eq!(screen[(5, 1)].symbol(), "\u{2502}");
    assert_eq!(
        screen[(5, 2)].symbol(),
        "\u{2502}",
        "spans the modeline row"
    );
    assert_eq!(screen[(6, 0)].symbol(), "r", "view content untouched");
    assert_eq!(screen[(3, 0)].symbol(), "l", "left pane untouched");
}

#[test]
fn a_view_at_the_left_edge_has_no_separator() {
    let mut registry = Registry::default();
    registry.insert(view(1, 0, 0, 4, 2, ViewKind::Tile));
    fill(&mut registry, 1, 'l');
    let mut screen = Buffer::empty(Rect::new(0, 0, 6, 2));
    registry.composite(&mut screen);
    assert_eq!(
        screen[(0, 0)].symbol(),
        "l",
        "nothing to the left to draw in"
    );
}

#[test]
fn floating_windows_cover_separators() {
    let mut registry = Registry::default();
    registry.insert(view(1, 3, 0, 4, 2, ViewKind::Tile));
    registry.insert(view(2, 0, 0, 6, 1, ViewKind::Floating));
    fill(&mut registry, 1, 't');
    fill(&mut registry, 2, 'f');

    let mut screen = Buffer::empty(Rect::new(0, 0, 8, 2));
    registry.composite(&mut screen);
    assert_eq!(
        screen[(2, 0)].symbol(),
        "f",
        "floating wins over the separator"
    );
    assert_eq!(screen[(2, 1)].symbol(), "\u{2502}", "still drawn below it");
}

fn floating(id: u64, x: u16, y: u16, w: u16, h: u16) -> View {
    let mut v = view(id, x, y, w, h, ViewKind::Floating);
    v.border = Some(1);
    v
}

#[test]
fn a_floating_window_is_ringed_by_a_box() {
    // The border sits outside the view: a 2x1 view at (2,2) is ringed
    // by a box from (1,1) to (4,3).
    let mut registry = Registry::default();
    registry.insert(floating(1, 2, 2, 2, 1));
    fill(&mut registry, 1, 'f');

    let mut screen = Buffer::empty(Rect::new(0, 0, 8, 6));
    registry.composite(&mut screen);

    assert_eq!(screen[(1, 1)].symbol(), "\u{256d}", "top left");
    assert_eq!(screen[(4, 1)].symbol(), "\u{256e}", "top right");
    assert_eq!(screen[(1, 3)].symbol(), "\u{2570}", "bottom left");
    assert_eq!(screen[(4, 3)].symbol(), "\u{256f}", "bottom right");
    assert_eq!(screen[(2, 1)].symbol(), "\u{2500}", "top edge");
    assert_eq!(screen[(1, 2)].symbol(), "\u{2502}", "left edge");
    assert_eq!(screen[(2, 2)].symbol(), "f", "content survives");
}

#[test]
fn a_drop_curtain_joins_what_is_above_it() {
    let mut registry = Registry::default();
    let mut v = floating(1, 2, 2, 2, 1);
    v.border_shape = Some(BorderShape::DropCurtain);
    registry.insert(v);

    let mut screen = Buffer::empty(Rect::new(0, 0, 8, 6));
    registry.composite(&mut screen);
    assert_eq!(screen[(1, 1)].symbol(), "\u{251c}", "top left tees right");
    assert_eq!(screen[(4, 1)].symbol(), "\u{2524}", "top right tees left");
    assert_eq!(
        screen[(1, 3)].symbol(),
        "\u{2570}",
        "bottom corners unchanged"
    );
}

#[test]
fn a_left_border_is_a_rule_not_a_box() {
    let mut registry = Registry::default();
    let mut v = floating(1, 2, 2, 2, 2);
    v.border_shape = Some(BorderShape::LeftBorder);
    registry.insert(v);

    let mut screen = Buffer::empty(Rect::new(0, 0, 8, 6));
    registry.composite(&mut screen);
    assert_eq!(screen[(1, 2)].symbol(), "\u{2502}");
    assert_eq!(screen[(1, 3)].symbol(), "\u{2502}");
    assert_eq!(screen[(1, 1)].symbol(), " ", "no box above");
    assert_eq!(screen[(4, 2)].symbol(), " ", "nothing on the right");
}

#[test]
fn a_border_against_the_screen_edge_is_clipped_not_wrapped() {
    // A window at (0,0) puts its border at -1; those cells must be
    // dropped rather than wrapping onto the far side.
    let mut registry = Registry::default();
    registry.insert(floating(1, 0, 0, 3, 1));
    fill(&mut registry, 1, 'f');

    let mut screen = Buffer::empty(Rect::new(0, 0, 6, 4));
    registry.composite(&mut screen);
    assert_eq!(screen[(0, 0)].symbol(), "f", "content still drawn");
    assert_eq!(screen[(3, 0)].symbol(), "\u{2502}", "right edge lands");
    assert_eq!(screen[(0, 1)].symbol(), "\u{2500}", "bottom edge lands");
    assert_eq!(screen[(5, 3)].symbol(), " ", "nothing wrapped");
}

#[test]
fn a_view_without_a_border_gets_none() {
    let mut registry = Registry::default();
    registry.insert(view(1, 2, 2, 2, 1, ViewKind::Floating));
    let mut screen = Buffer::empty(Rect::new(0, 0, 8, 6));
    registry.composite(&mut screen);
    assert_eq!(screen[(1, 1)].symbol(), " ");
}

#[test]
fn views_are_clipped_to_the_screen() {
    let mut registry = Registry::default();
    registry.insert(view(1, 4, 0, 8, 2, ViewKind::Tile));
    fill(&mut registry, 1, 't');

    let mut screen = Buffer::empty(Rect::new(0, 0, 6, 2));
    registry.composite(&mut screen);
    assert_eq!(screen[(5, 0)].symbol(), "t");
}

#[test]
fn resize_reallocates_the_buffer() {
    let mut registry = Registry::default();
    registry.insert(view(1, 0, 0, 10, 4, ViewKind::Tile));
    registry.resize(1, 20, 8);
    let vb = registry.get_mut(1).unwrap();
    assert_eq!(vb.buffer.area.width, 20);
    assert_eq!(vb.buffer.area.height, 8);
    assert_eq!(vb.view.width, 20);
    assert_eq!(vb.view.height, 8);
}

#[test]
fn move_to_repositions_without_clearing() {
    let mut registry = Registry::default();
    registry.insert(view(1, 0, 0, 4, 1, ViewKind::Tile));
    fill(&mut registry, 1, 't');
    registry.move_to(1, 2, 3);

    let mut screen = Buffer::empty(Rect::new(0, 0, 8, 5));
    registry.composite(&mut screen);
    assert_eq!(screen[(2, 3)].symbol(), "t", "moved, contents intact");
    assert_eq!(screen[(0, 0)].symbol(), " ", "vacated");
}

#[test]
fn operations_on_an_unknown_view_are_ignored() {
    let mut registry = Registry::default();
    registry.resize(99, 10, 10);
    registry.move_to(99, 1, 1);
    registry.remove(99);
    assert!(registry.get_mut(99).is_none());
}

#[test]
fn inserting_an_existing_id_replaces_the_view() {
    let mut registry = Registry::default();
    registry.insert(view(1, 0, 0, 4, 1, ViewKind::Tile));
    fill(&mut registry, 1, 'a');
    registry.insert(view(1, 0, 0, 2, 1, ViewKind::Tile));
    assert_eq!(registry.len(), 1);
    let vb = registry.get_mut(1).unwrap();
    assert_eq!(vb.buffer.area.width, 2);
    assert_eq!(vb.buffer[(0, 0)].symbol(), " ", "a fresh buffer");
    assert_eq!(vb.modeline.area, Rect::new(0, 0, 2, 1));
}

#[test]
fn headers_paint_over_tiles_and_under_floating_windows() {
    let mut registry = Registry::default();
    registry.insert(view(3, 0, 0, 3, 1, ViewKind::Floating));
    registry.insert(view(2, 0, 0, 2, 1, ViewKind::Header));
    registry.insert(view(1, 0, 0, 1, 1, ViewKind::Tile));
    fill(&mut registry, 1, 't');
    fill(&mut registry, 2, 'h');
    fill(&mut registry, 3, 'f');
    let mut screen = Buffer::empty(Rect::new(0, 0, 5, 1));
    registry.composite(&mut screen);
    assert_eq!(screen[(0, 0)].symbol(), "f");
    assert_eq!(screen[(1, 0)].symbol(), "f");
    assert_eq!(screen[(2, 0)].symbol(), "f");
    assert_eq!(screen[(3, 0)].symbol(), " ");

    registry.remove(3);
    let mut screen = Buffer::empty(Rect::new(0, 0, 5, 1));
    registry.composite(&mut screen);
    assert_eq!(screen[(0, 0)].symbol(), "h", "header over the tile");
    assert_eq!(screen[(1, 0)].symbol(), "h");
}

#[test]
fn a_thick_border_is_inset_by_its_size() {
    let mut registry = Registry::default();
    let mut v = floating(1, 3, 3, 1, 1);
    v.border = Some(2);
    registry.insert(v);
    let mut screen = Buffer::empty(Rect::new(0, 0, 8, 8));
    registry.composite(&mut screen);
    assert_eq!(screen[(1, 1)].symbol(), "\u{256d}");
    assert_eq!(screen[(5, 1)].symbol(), "\u{256e}");
    assert_eq!(screen[(1, 5)].symbol(), "\u{2570}");
    assert_eq!(screen[(5, 5)].symbol(), "\u{256f}");
    assert_eq!(screen[(2, 2)].symbol(), " ", "inside the ring");
}

#[test]
fn a_zero_border_draws_nothing() {
    let mut registry = Registry::default();
    let mut v = floating(1, 2, 2, 2, 1);
    v.border = Some(0);
    registry.insert(v);
    let mut screen = Buffer::empty(Rect::new(0, 0, 8, 6));
    registry.composite(&mut screen);
    assert_eq!(screen[(1, 1)].symbol(), " ");
}

#[test]
fn a_tall_tile_with_a_modeline_is_flagged_before_compositing() {
    let mut registry = Registry::default();
    assert!(registry.separators_fit());
    let mut v = view(1, 1, 0, 1, u16::MAX, ViewKind::Tile);
    v.use_modeline = Some(true);
    registry.insert(v);
    assert!(!registry.separators_fit());
    registry.resize(1, 1, 3);
    assert!(registry.separators_fit());
}

#[test]
fn the_count_includes_html_views() {
    let mut registry = Registry::default();
    assert!(registry.is_empty());
    let mut tabbar = view(2, 0, 0, 6, 1, ViewKind::Header);
    tabbar.content_type = ViewType::Html;
    registry.insert(tabbar);
    registry.insert(view(1, 0, 1, 6, 1, ViewKind::Tile));
    assert_eq!(registry.len(), 2);
    assert!(!registry.is_empty());
    registry.remove(2);
    assert_eq!(registry.len(), 1);
}

#[test]
fn resize_keeps_the_position_and_move_keeps_the_size() {
    let mut registry = Registry::default();
    registry.insert(view(1, 3, 4, 5, 6, ViewKind::Tile));
    registry.resize(1, 7, 8);
    registry.move_to(1, 1, 2);
    let vb = registry.get_mut(1).unwrap();
    assert_eq!((vb.view.x, vb.view.y, vb.view.width, vb.view.height), (1, 2, 7, 8));
    assert_eq!(vb.modeline.area, Rect::new(0, 0, 7, 1));
}
