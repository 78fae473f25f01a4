use lem_ratatui::frame::apply_frame;
use lem_ratatui::protocol::{
    method_of, Attribute, Clear, Instruction, Method, MoveCursor, MoveView, Put, ResizeView,
    View, ViewInfo, ViewInfoArg, ViewKind, ViewType,
};
use lem_ratatui::views::Registry;
use ratatui_core::buffer::Buffer;
use ratatui_core::layout::Rect;

fn tile(id: u64, x: u16, y: u16, w: u16, h: u16) -> View {
    View {
        id,
        x,
        y,
        width: w,
        height: h,
        use_modeline: Some(true),
        kind: ViewKind::Tile,
        content_type: ViewType::Editor,
        border: None,
        border_shape: None,
    }
}

fn put(id: u64, x: u16, y: u16, text: &str) -> Put {
    Put {
        view_info: ViewInfo { id },
        x,
        y,
        text: text.to_string(),
        text_width: text.chars().count() as u16,
        attribute: None,
    }
}

fn other(method: &str) -> Instruction {
    Instruction::Other { method: method.to_string() }
}

fn screen_of(registry: &Registry, w: u16, h: u16) -> Buffer {
    let mut screen = Buffer::empty(Rect::new(0, 0, w, h));
    registry.composite(&mut screen);
    screen
}

#[test]
fn a_frame_is_complete_only_with_update_display() {
    let mut registry = Registry::default();
    assert!(!apply_frame(&mut registry, vec![other("redraw-view-after")]));
    assert!(apply_frame(&mut registry, vec![other("change-view"), other("update-display")]));
    assert!(!apply_frame(&mut registry, vec![]));
}

#[test]
fn a_frame_makes_paints_and_moves_views_in_order() {
    let mut registry = Registry::default();
    let complete = apply_frame(
        &mut registry,
        vec![
            Instruction::MakeView(tile(1, 0, 0, 4, 2)),
            Instruction::Put(put(1, 0, 0, "ab")),
            Instruction::ModelinePut(put(1, 0, 0, "mm")),
            Instruction::MoveCursor(MoveCursor { view_info: ViewInfo { id: 1 }, x: 0, y: 0 }),
            Instruction::MoveView(MoveView { view_info: ViewInfo { id: 1 }, x: 1, y: 1 }),
            other("update-display"),
        ],
    );
    assert!(complete);
    let screen = screen_of(&registry, 6, 5);
    assert_eq!(screen[(1, 1)].symbol(), "a");
    assert_eq!(screen[(2, 1)].symbol(), "b");
    assert_eq!(screen[(1, 3)].symbol(), "m", "modeline below the view");
    assert_eq!(screen[(0, 1)].symbol(), "\u{2502}", "separator left of the split");
}

#[test]
fn paint_for_an_unknown_view_is_dropped() {
    let mut registry = Registry::default();
    apply_frame(
        &mut registry,
        vec![
            Instruction::Put(put(9, 0, 0, "zz")),
            Instruction::ClearEol(Clear { view_info: ViewInfo { id: 9 }, x: 0, y: 0 }),
            Instruction::DeleteView(ViewInfoArg { view_info: ViewInfo { id: 9 } }),
        ],
    );
    assert!(registry.is_empty());
}

#[test]
fn clear_and_clear_eob_blank_from_a_row_down() {
    let mut registry = Registry::default();
    apply_frame(
        &mut registry,
        vec![
            Instruction::MakeView(tile(1, 0, 0, 2, 3)),
            Instruction::Put(put(1, 0, 0, "aa")),
            Instruction::Put(put(1, 0, 1, "bb")),
            Instruction::Put(put(1, 0, 2, "cc")),
            Instruction::ClearEob(Clear { view_info: ViewInfo { id: 1 }, x: 0, y: 2 }),
        ],
    );
    let screen = screen_of(&registry, 2, 4);
    assert_eq!(screen[(0, 1)].symbol(), "b");
    assert_eq!(screen[(0, 2)].symbol(), " ");
    apply_frame(
        &mut registry,
        vec![Instruction::Clear(Clear { view_info: ViewInfo { id: 1 }, x: 1, y: 0 })],
    );
    let screen = screen_of(&registry, 2, 4);
    assert_eq!(screen[(0, 0)].symbol(), " ", "clear ignores x and blanks from y");
}

#[test]
fn a_resize_in_a_frame_discards_the_contents() {
    let mut registry = Registry::default();
    apply_frame(
        &mut registry,
        vec![
            Instruction::MakeView(tile(1, 0, 0, 2, 1)),
            Instruction::Put(put(1, 0, 0, "xy")),
            Instruction::ResizeView(ResizeView { view_info: ViewInfo { id: 1 }, width: 3, height: 1 }),
        ],
    );
    let screen = screen_of(&registry, 3, 2);
    assert_eq!(screen[(0, 0)].symbol(), " ");
    assert_eq!(registry.get_mut(1).unwrap().buffer.area.width, 3);
}

#[test]
fn making_a_view_twice_keeps_one() {
    let mut registry = Registry::default();
    apply_frame(
        &mut registry,
        vec![
            Instruction::MakeView(tile(1, 0, 0, 2, 1)),
            Instruction::MakeView(tile(2, 0, 1, 2, 1)),
            Instruction::MakeView(tile(1, 0, 0, 3, 1)),
        ],
    );
    assert_eq!(registry.len(), 2);
    assert_eq!(registry.get_mut(1).unwrap().view.width, 3);
}

#[test]
fn colours_that_are_not_hex_leave_the_cell_colour_alone() {
    let mut registry = Registry::default();
    let mut stray = put(9, 0, 0, "a");
    stray.attribute = Some(Attribute { foreground: Some("#aébbb".to_string()), ..Attribute::default() });
    assert!(apply_frame(&mut registry, vec![Instruction::Put(stray), other("update-display")]));
    assert!(registry.is_empty(), "a put naming a missing view changes nothing");

    let mut odd = put(1, 0, 0, "a");
    odd.attribute = Some(Attribute { foreground: Some("#aébbb".to_string()), ..Attribute::default() });
    apply_frame(&mut registry, vec![Instruction::MakeView(tile(1, 0, 0, 2, 1)), Instruction::Put(odd)]);
    let screen = screen_of(&registry, 2, 2);
    assert_eq!(screen[(0, 0)].symbol(), "a");
    assert_eq!(screen[(0, 0)].fg, ratatui_core::style::Color::Reset);
}

#[test]
fn method_names_map_to_the_instructions_decoded() {
    assert_eq!(method_of("put"), Some(Method::Put));
    assert_eq!(method_of("modeline-put"), Some(Method::ModelinePut));
    assert_eq!(method_of("make-view"), Some(Method::MakeView));
    assert_eq!(method_of("delete-view"), Some(Method::DeleteView));
    assert_eq!(method_of("clear"), Some(Method::Clear));
    assert_eq!(method_of("clear-eol"), Some(Method::ClearEol));
    assert_eq!(method_of("clear-eob"), Some(Method::ClearEob));
    assert_eq!(method_of("resize-view"), Some(Method::ResizeView));
    assert_eq!(method_of("move-view"), Some(Method::MoveView));
    assert_eq!(method_of("move-cursor"), Some(Method::MoveCursor));
    for ignored in ["load-css", "js-eval", "set-font", "update-display", "change-view", "Put", ""] {
        assert_eq!(method_of(ignored), None, "{ignored}");
    }
}

#[test]
fn a_missing_modeline_flag_means_none() {
    let mut v = tile(1, 0, 0, 1, 1);
    assert!(v.has_modeline());
    v.use_modeline = None;
    assert!(!v.has_modeline());
    v.use_modeline = Some(false);
    assert!(!v.has_modeline());
}
