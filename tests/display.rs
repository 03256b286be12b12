use termgrid::color::Color;
use termgrid::display::{Display, DisplayError, Pixel};

fn blank() -> Pixel {
    Pixel { c: ' ', foreground_color: Color::Black, background_color: Color::Black }
}

fn all_cells(d: &Display) -> Vec<Pixel> {
    let mut v = Vec::new();
    for y in 0..d.height() {
        for x in 0..d.width() {
            v.push(d.cell(x, y).unwrap());
        }
    }
    v
}

fn count(hay: &[u8], needle: &[u8]) -> usize {
    if hay.len() < needle.len() {
        return 0;
    }
    (0..=hay.len() - needle.len()).filter(|&i| &hay[i..i + needle.len()] == needle).count()
}

const FG: &[u8] = b"\x1b[38;5;";
const BG: &[u8] = b"\x1b[48;5;";
const ERASE: &[u8] = b"\x1b[2J";

#[test]
fn new_grid_is_blank() {
    for (w, h) in [(1u32, 1u32), (3, 2), (7, 5)] {
        let d = Display::new(w, h).unwrap();
        assert_eq!(d.width(), w);
        assert_eq!(d.height(), h);
        assert!(all_cells(&d).iter().all(|p| *p == blank()));
        assert_eq!(all_cells(&d).len(), (w * h) as usize);
    }
}

#[test]
fn new_refuses_empty_grid() {
    assert_eq!(Display::new(0, 3).err(), Some(DisplayError::DegenerateBuffer));
    assert_eq!(Display::new(3, 0).err(), Some(DisplayError::DegenerateBuffer));
    assert_eq!(Display::new(0, 0).err(), Some(DisplayError::DegenerateBuffer));
}

#[test]
fn clear_buffer_restores_blank() {
    let mut d = Display::new(4, 3).unwrap();
    d.set_text("abcd", 0, 0, Color::Red, Color::Green).unwrap();
    d.set_text("xy", 1, 2, Color::White, Color::Blue).unwrap();
    d.clear_buffer();
    assert_eq!(d.width(), 4);
    assert_eq!(d.height(), 3);
    assert!(all_cells(&d).iter().all(|p| *p == blank()));
}

#[test]
fn set_text_writes_cells() {
    let mut d = Display::new(5, 2).unwrap();
    assert_eq!(d.set_text("AB", 0, 0, Color::Red, Color::Blue), Ok(()));
    assert_eq!(
        d.cell(0, 0),
        Some(Pixel { c: 'A', foreground_color: Color::Red, background_color: Color::Blue })
    );
    assert_eq!(
        d.cell(1, 0),
        Some(Pixel { c: 'B', foreground_color: Color::Red, background_color: Color::Blue })
    );
    assert_eq!(d.cell(2, 0), Some(blank()));
}

#[test]
fn set_text_past_row_end_is_refused() {
    let mut d = Display::new(4, 2).unwrap();
    d.set_text("ab", 1, 1, Color::Green, Color::Black).unwrap();
    let before = all_cells(&d);
    assert_eq!(d.set_text("abc", 2, 0, Color::Red, Color::Blue), Err(DisplayError::OutOfBounds));
    assert_eq!(d.set_text("a", 5, 0, Color::Red, Color::Blue), Err(DisplayError::OutOfBounds));
    assert_eq!(d.set_text("a", 0, 2, Color::Red, Color::Blue), Err(DisplayError::OutOfBounds));
    assert_eq!(all_cells(&d), before);
}

#[test]
fn set_text_filling_a_row_exactly_fits() {
    let mut d = Display::new(3, 1).unwrap();
    assert_eq!(d.set_text("xyz", 0, 0, Color::Cyan, Color::Magenta), Ok(()));
    assert_eq!(d.set_text("", 3, 0, Color::Cyan, Color::Magenta), Ok(()));
    assert_eq!(d.cell(2, 0).unwrap().c, 'z');
    assert_eq!(d.cell(3, 0), None);
}

#[test]
fn set_text_counts_code_points() {
    let mut d = Display::new(3, 1).unwrap();
    assert_eq!(d.set_text("éλ", 1, 0, Color::Yellow, Color::Black), Ok(()));
    assert_eq!(d.cell(1, 0).unwrap().c, 'é');
    assert_eq!(d.cell(2, 0).unwrap().c, 'λ');
    assert_eq!(d.set_text("éλ", 2, 0, Color::Yellow, Color::Black), Err(DisplayError::OutOfBounds));
}

#[test]
fn write_then_read_back() {
    let mut d = Display::new(6, 3).unwrap();
    d.set_text("qq", 0, 0, Color::Blue, Color::Blue).unwrap();
    let before = all_cells(&d);
    d.set_text("hey", 2, 1, Color::Green, Color::Red).unwrap();
    for y in 0..3u32 {
        for x in 0..6u32 {
            let p = d.cell(x, y).unwrap();
            if y == 1 && (2..5).contains(&x) {
                let c = "hey".chars().nth((x - 2) as usize).unwrap();
                assert_eq!(p, Pixel { c, foreground_color: Color::Green, background_color: Color::Red });
            } else {
                assert_eq!(p, before[(y * 6 + x) as usize]);
            }
        }
    }
}

#[test]
fn clear_screen_bytes() {
    let d = Display::new(2, 2).unwrap();
    assert_eq!(d.clear_screen(), b"\x1b[2J".to_vec());
}

#[test]
fn color_codes() {
    assert_eq!(Color::Black.code(), 0);
    assert_eq!(Color::Red.code(), 1);
    assert_eq!(Color::Blue.code(), 4);
    assert_eq!(Color::White.code(), 7);
}

#[test]
fn render_blank_grid_exact() {
    let d = Display::new(2, 2).unwrap();
    assert_eq!(d.render(None), b"\x1b[2J\x1b[1;1H  \x1b[2;1H  \x1b[3;1H".to_vec());
}

#[test]
fn render_colors_exact() {
    let mut d = Display::new(2, 1).unwrap();
    d.set_text("A", 0, 0, Color::Red, Color::Blue).unwrap();
    assert_eq!(
        d.render(None),
        b"\x1b[2J\x1b[1;1H\x1b[38;5;1m\x1b[48;5;4mA\x1b[38;5;0m\x1b[48;5;0m \x1b[2;1H".to_vec()
    );
}

#[test]
fn render_colors_carry_across_rows() {
    let mut d = Display::new(1, 2).unwrap();
    d.set_text("a", 0, 0, Color::Green, Color::Black).unwrap();
    d.set_text("b", 0, 1, Color::Green, Color::Black).unwrap();
    assert_eq!(
        d.render(None),
        b"\x1b[2J\x1b[1;1H\x1b[38;5;2ma\x1b[2;1Hb\x1b[3;1H".to_vec()
    );
}

#[test]
fn render_offset_from_terminal_width() {
    let d = Display::new(3, 3).unwrap();
    // 80 / 2 - 3 / 2 = 39, printed 1-based
    assert!(d.render(Some(80)).starts_with(b"\x1b[2J\x1b[1;40H"));
    assert!(d.render(Some(81)).starts_with(b"\x1b[2J\x1b[1;40H"));
}

#[test]
fn render_offset_uses_row_count_on_non_square_grid() {
    let d = Display::new(10, 4).unwrap();
    // 20 / 2 - 4 / 2 = 8, although the rows are 10 wide
    let out = d.render(Some(20));
    assert!(out.starts_with(b"\x1b[2J\x1b[1;9H"));
    assert_eq!(count(&out, b";9H"), 5);
    assert!(out.ends_with(b"\x1b[5;9H"));
}

#[test]
fn render_offset_never_negative() {
    let d = Display::new(2, 10).unwrap();
    assert!(d.render(Some(4)).starts_with(b"\x1b[2J\x1b[1;1H"));
    assert!(d.render(None).starts_with(b"\x1b[2J\x1b[1;1H"));
}

#[test]
fn render_uniform_colors_select_once() {
    let mut d = Display::new(20, 12).unwrap();
    for y in 0..12 {
        d.set_text("abcdefghijklmnopqrst", 0, y, Color::Yellow, Color::Cyan).unwrap();
    }
    let out = d.render(Some(100));
    assert_eq!(count(&out, FG), 1);
    assert_eq!(count(&out, BG), 1);
    let blank = Display::new(20, 12).unwrap().render(Some(100));
    assert_eq!(count(&blank, FG), 0);
    assert_eq!(count(&blank, BG), 0);
}

#[test]
fn render_alternating_colors_select_every_cell() {
    let mut d = Display::new(4, 3).unwrap();
    let mut k = 0;
    for y in 0..3 {
        for x in 0..4 {
            let fg = if k % 2 == 0 { Color::Red } else { Color::Green };
            d.set_text("#", x, y, fg, Color::Black).unwrap();
            k += 1;
        }
    }
    let out = d.render(None);
    assert_eq!(count(&out, FG), 12);
    assert_eq!(count(&out, BG), 0);
}

#[test]
fn render_erases_once_before_cells() {
    let mut d = Display::new(3, 2).unwrap();
    d.set_text("abc", 0, 1, Color::Magenta, Color::White).unwrap();
    let out = d.render(Some(30));
    assert_eq!(count(&out, ERASE), 1);
    assert!(out.starts_with(ERASE));
}

#[test]
fn render_multi_digit_rows() {
    let d = Display::new(1, 12).unwrap();
    let out = d.render(None);
    assert!(out.ends_with(b" \x1b[12;1H \x1b[13;1H"));
}

#[test]
fn render_glyph_is_low_byte_of_code_point() {
    let mut d = Display::new(1, 1).unwrap();
    d.set_text("é", 0, 0, Color::Black, Color::Black).unwrap();
    assert_eq!(d.render(None), b"\x1b[2J\x1b[1;1H\xe9\x1b[2;1H".to_vec());
}
