//! Console writer behaviour: the character grid, line wrapping and
//! scrolling, colours.
use kernel_core::vga::clear_screen;
use kernel_core::vga::get_colour;
use kernel_core::vga::set_colour;
use kernel_core::vga::Colour;
use kernel_core::vga::VgaColour;
use kernel_core::vga::Writer;
use kernel_core::vga::SCREEN_HEIGHT;
use kernel_core::vga::SCREEN_WIDTH;

fn line_is(w: &Writer, number: usize, line: &str) {
    let bytes = line.as_bytes();
    for i in 0..SCREEN_WIDTH {
        let cell = w.buffer[number][i];
        if i < bytes.len() {
            assert_eq!(cell.char_code, bytes[i], "column {i} of line {number}");
        } else {
            assert_eq!(cell.char_code, 0, "column {i} of line {number} not blank");
        }
    }
}

#[test]
fn test_write() {
    let mut w = Writer::new();
    w.write_string(b"Lorem ipsum dolor sit amet\n");
    line_is(&w, 0, "Lorem ipsum dolor sit amet");
}

#[test]
fn test_lines() {
    let mut w = Writer::new();
    w.write_string(b"Lorem ipsum dolor sit amet\n");
    w.write_string(b"consectetur adipiscing elit\n");
    line_is(&w, 0, "Lorem ipsum dolor sit amet");
    line_is(&w, 1, "consectetur adipiscing elit");
}

#[test]
fn test_many_lines() {
    // filling the screen scrolls the first line off the top
    let mut w = Writer::new();
    w.write_string(b"Lorem ipsum dolor sit amet\n");
    w.write_string(b"consectetur adipiscing elit\n");
    for n in 2..SCREEN_HEIGHT {
        w.write_string(format!("line {}\n", n).as_bytes());
    }
    line_is(&w, 0, "consectetur adipiscing elit");
}

#[test]
fn long_line_wraps() {
    let mut w = Writer::new();
    let long: Vec<u8> = std::iter::repeat(b'x').take(SCREEN_WIDTH + 3).collect();
    w.write_string(&long);
    assert_eq!(w.buffer[0][SCREEN_WIDTH - 1].char_code, b'x');
    assert_eq!(w.buffer[1][0].char_code, b'x');
    assert_eq!(w.buffer[1][2].char_code, b'x');
    assert_eq!(w.buffer[1][3].char_code, 0);
}

#[test]
fn unprintable_bytes_show_a_replacement_mark() {
    let mut w = Writer::new();
    w.write_string(&[b'a', 0x07, b'b']);
    assert_eq!(w.buffer[0][0].char_code, b'a');
    assert_eq!(w.buffer[0][1].char_code, 0xfe);
    assert_eq!(w.buffer[0][2].char_code, b'b');
}

#[test]
fn colours_pack_and_unpack() {
    let c = VgaColour::new(Colour::Blue, Colour::Yellow);
    assert_eq!(c.0, 1 * 16 + 14);
    assert_eq!(c.bg(), Colour::Blue);
    assert_eq!(c.fg(), Colour::Yellow);
}

#[test]
fn writer_colour_selection() {
    let mut w = Writer::new();
    set_colour(&mut w, Colour::Black, Colour::Red);
    assert_eq!(get_colour(&w), VgaColour::new(Colour::Black, Colour::Red));
    w.write_string(b"!");
    assert_eq!(w.buffer[0][0].color, VgaColour::new(Colour::Black, Colour::Red));
}

#[test]
fn clear_screen_blanks_everything() {
    let mut w = Writer::new();
    w.write_string(b"something\nelse");
    clear_screen(&mut w);
    for r in 0..SCREEN_HEIGHT {
        for c in 0..SCREEN_WIDTH {
            assert_eq!(w.buffer[r][c].char_code, 0);
        }
    }
}
