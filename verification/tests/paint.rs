use lem_ratatui::paint::{clear_eob, clear_eol, modeline_put, put};
use lem_ratatui::protocol::{Attribute, Put, Underline, View, ViewInfo, ViewKind, ViewType};
use lem_ratatui::style::{parse_color, style_of, Color, Modifier};
use lem_ratatui::views::ViewBuffer;
use ratatui_core::buffer::Buffer;
use ratatui_core::layout::Rect;

fn view_buffer(w: u16, h: u16) -> ViewBuffer {
    ViewBuffer {
        view: View {
            id: 1,
            x: 0,
            y: 0,
            width: w,
            height: h,
            use_modeline: None,
            kind: ViewKind::Tile,
            content_type: ViewType::Editor,
            border: None,
            border_shape: None,
        },
        buffer: Buffer::empty(Rect::new(0, 0, w, h)),
        modeline: Buffer::empty(Rect::new(0, 0, w, 1)),
    }
}

fn put_at(x: u16, y: u16, text: &str, width: u16, attribute: Option<Attribute>) -> Put {
    Put {
        view_info: ViewInfo { id: 1 },
        x,
        y,
        text: text.to_string(),
        text_width: width,
        attribute,
    }
}

#[test]
fn parses_wire_colors() {
    assert_eq!(parse_color("#AABBCC"), Some(Color::Rgb(0xAA, 0xBB, 0xCC)));
    assert_eq!(parse_color("#000000"), Some(Color::Rgb(0, 0, 0)));
    assert_eq!(parse_color("nonsense"), None);
    assert_eq!(parse_color("#AABB"), None, "short hex");
    assert_eq!(parse_color("#GGHHII"), None, "non-hex digits");
}

#[test]
fn writes_text_at_a_cell_position() {
    let mut vb = view_buffer(10, 2);
    put(&mut vb, &put_at(2, 1, "hi", 2, None));
    assert_eq!(vb.buffer[(2, 1)].symbol(), "h");
    assert_eq!(vb.buffer[(3, 1)].symbol(), "i");
}

#[test]
fn applies_colors_and_bold() {
    let attribute = Attribute {
        foreground: Some("#FF0000".into()),
        background: Some("#000000".into()),
        bold: true,
        ..Attribute::default()
    };
    let style = style_of(&attribute);
    assert_eq!(style.fg, Some(Color::Rgb(0xFF, 0, 0)));
    assert_eq!(style.bg, Some(Color::Rgb(0, 0, 0)));
    assert!(style.add_modifier.contains(Modifier::BOLD));
}

#[test]
fn a_null_colour_leaves_the_style_unset() {
    let style = style_of(&Attribute::default());
    assert_eq!(style.fg, None);
    assert_eq!(style.bg, None);
}

#[test]
fn reverse_and_underline_map_to_modifiers() {
    let style = style_of(&Attribute {
        reverse: true,
        underline: Some(Underline::On(true)),
        ..Attribute::default()
    });
    assert!(style.add_modifier.contains(Modifier::REVERSED));
    assert!(style.add_modifier.contains(Modifier::UNDERLINED));
}

#[test]
fn underline_color_is_carried_through() {
    let style = style_of(&Attribute {
        underline: Some(Underline::Color("#00FF00".into())),
        ..Attribute::default()
    });
    assert!(style.add_modifier.contains(Modifier::UNDERLINED));
    assert_eq!(style.underline_color, Some(Color::Rgb(0, 0xFF, 0)));
}

#[test]
fn a_wide_character_occupies_two_cells() {
    let mut vb = view_buffer(6, 1);
    put(&mut vb, &put_at(1, 0, "\u{1F512}", 2, None));
    put(&mut vb, &put_at(3, 0, "ab", 2, None));
    assert_eq!(vb.buffer[(1, 0)].symbol(), "\u{1F512}");
    assert_eq!(vb.buffer[(2, 0)].symbol(), " ", "continuation cell");
    assert_eq!(vb.buffer[(3, 0)].symbol(), "a");
    assert_eq!(vb.buffer[(4, 0)].symbol(), "b");
}

#[test]
fn writing_past_the_right_edge_does_not_panic() {
    let mut vb = view_buffer(4, 1);
    put(&mut vb, &put_at(3, 0, "long", 4, None));
    assert_eq!(vb.buffer[(3, 0)].symbol(), "l");
}

#[test]
fn writing_past_the_bottom_edge_does_not_panic() {
    let mut vb = view_buffer(4, 2);
    put(&mut vb, &put_at(0, 9, "off-screen", 10, None));
    assert_eq!(vb.buffer[(0, 0)].symbol(), " ");
}

#[test]
fn clear_eol_blanks_the_rest_of_one_row_only() {
    let mut vb = view_buffer(5, 2);
    put(&mut vb, &put_at(0, 0, "abcde", 5, None));
    put(&mut vb, &put_at(0, 1, "fghij", 5, None));
    clear_eol(&mut vb, 2, 0);
    assert_eq!(vb.buffer[(1, 0)].symbol(), "b");
    assert_eq!(vb.buffer[(2, 0)].symbol(), " ");
    assert_eq!(vb.buffer[(4, 0)].symbol(), " ");
    assert_eq!(vb.buffer[(2, 1)].symbol(), "h", "row 1 untouched");
}

#[test]
fn clear_eob_blanks_every_row_from_y_down() {
    let mut vb = view_buffer(3, 3);
    for y in 0..3 {
        put(&mut vb, &put_at(0, y, "xyz", 3, None));
    }
    clear_eob(&mut vb, 1);
    assert_eq!(vb.buffer[(0, 0)].symbol(), "x");
    assert_eq!(vb.buffer[(0, 1)].symbol(), " ");
    assert_eq!(vb.buffer[(0, 2)].symbol(), " ");
}

#[test]
fn clearing_out_of_range_rows_is_a_no_op() {
    let mut vb = view_buffer(3, 2);
    clear_eol(&mut vb, 0, 9);
    clear_eob(&mut vb, 9);
    assert_eq!(vb.buffer[(0, 0)].symbol(), " ");
}

#[test]
fn colour_components_parse_as_radix_sixteen() {
    assert_eq!(parse_color("#abcdef"), Some(Color::Rgb(0xAB, 0xCD, 0xEF)));
    assert_eq!(parse_color("#+1+2+3"), None, "each pair is exactly two hex digits");
    assert_eq!(parse_color("AABBCCD"), None, "no leading #");
    assert_eq!(parse_color("#AABBCCDD"), None, "too long");
    assert_eq!(parse_color("#-1AABB"), None, "no sign but plus");
}

#[test]
fn colours_with_multibyte_characters_are_none() {
    assert_eq!(parse_color("#aébbb"), None);
    assert_eq!(parse_color("#Aéxyz"), None);
    assert_eq!(parse_color("#AAaéb"), None);
    assert_eq!(parse_color("#ZZaéb"), None);
    let style = style_of(&Attribute {
        foreground: Some("#aébbb".into()),
        underline: Some(Underline::Color("#AAaéb".into())),
        ..Attribute::default()
    });
    assert_eq!(style.fg, None);
    assert_eq!(style.underline_color, None);
    assert!(style.add_modifier.contains(Modifier::UNDERLINED));
}

#[test]
fn styles_keep_the_cells_colour_and_add_modifiers() {
    let mut vb = view_buffer(4, 1);
    let attribute = Attribute {
        foreground: Some("#102030".into()),
        bold: true,
        ..Attribute::default()
    };
    put(&mut vb, &put_at(0, 0, "ab", 2, Some(attribute)));
    assert_eq!(vb.buffer[(0, 0)].fg, ratatui_core::style::Color::Rgb(0x10, 0x20, 0x30));
    assert!(vb.buffer[(1, 0)].modifier.contains(ratatui_core::style::Modifier::BOLD));
    assert_eq!(vb.buffer[(2, 0)].fg, ratatui_core::style::Color::Reset);
}

#[test]
fn the_modeline_is_painted_in_its_own_buffer() {
    let mut vb = view_buffer(4, 2);
    modeline_put(&mut vb, &put_at(0, 0, "mode", 4, None));
    assert_eq!(vb.modeline[(0, 0)].symbol(), "m");
    assert_eq!(vb.modeline[(3, 0)].symbol(), "e");
    assert_eq!(vb.buffer[(0, 0)].symbol(), " ", "the view's own first row untouched");
    modeline_put(&mut vb, &put_at(0, 1, "off", 3, None));
    assert_eq!(vb.modeline[(0, 0)].symbol(), "m", "the modeline has one row");
}
