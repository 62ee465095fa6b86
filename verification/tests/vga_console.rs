use bootkit::io::vga::{
    init, vga_entry, vga_entry_color, StaticVGATerminalWriter, VGATerminalWriter, VgaColor, BLANK, LINE_FEED,
    VGA_HEIGHT, VGA_WIDTH,
};

const GREY_BLANK: u16 = 0x0720;

/// A console together with a screen buffer, blank in light grey on black.
struct Console {
    writer: VGATerminalWriter,
    cells: Vec<u16>,
}

impl Console {
    fn new() -> Console {
        Console { writer: VGATerminalWriter::new(), cells: vec![GREY_BLANK; 80 * 25] }
    }

    fn putchar(&mut self, c: u8) {
        self.writer.putchar(&mut self.cells, c);
    }

    fn write(&mut self, data: &[u8]) {
        self.writer.write(&mut self.cells, data);
    }

    fn putentryat(&mut self, c: u8, color: u8, x: usize, y: usize) {
        self.writer.putentryat(&mut self.cells, c, color, x, y);
    }

    fn setcolor(&mut self, color: u8) {
        self.writer.setcolor(color);
    }

    fn buffer(&self) -> &Vec<u16> {
        &self.cells
    }

    fn row(&self) -> usize {
        self.writer.row()
    }

    fn column(&self) -> usize {
        self.writer.column()
    }

    fn color(&self) -> u8 {
        self.writer.color()
    }
}

#[test]
fn screen_is_eighty_by_twenty_five() {
    assert_eq!(VGA_WIDTH, 80);
    assert_eq!(VGA_HEIGHT, 25);
    assert_eq!(BLANK, b' ');
    assert_eq!(LINE_FEED, b'\n');
}

#[test]
fn colour_codes_follow_the_list() {
    assert_eq!(VgaColor::VgaColorBlack.code(), 0);
    assert_eq!(VgaColor::VgaColorBlue.code(), 1);
    assert_eq!(VgaColor::VgaColorGreen.code(), 2);
    assert_eq!(VgaColor::VgaColorCyan.code(), 3);
    assert_eq!(VgaColor::VgaColorRed.code(), 4);
    assert_eq!(VgaColor::VgaColorMagenta.code(), 5);
    assert_eq!(VgaColor::VgaColorBrown.code(), 6);
    assert_eq!(VgaColor::VgaColorLightGrey.code(), 7);
    assert_eq!(VgaColor::VgaColorDarkGrey.code(), 8);
    assert_eq!(VgaColor::VgaColorLightBlue.code(), 9);
    assert_eq!(VgaColor::VgaColorLightGreen.code(), 10);
    assert_eq!(VgaColor::VgaColorLightCyan.code(), 11);
    assert_eq!(VgaColor::VgaColorLightRed.code(), 12);
    assert_eq!(VgaColor::VgaColorLightMagenta.code(), 13);
    assert_eq!(VgaColor::VgaColorLightBrown.code(), 14);
    assert_eq!(VgaColor::VgaColorWhite.code(), 15);
}

#[test]
fn attribute_is_foreground_low_background_high() {
    assert_eq!(vga_entry_color(7, 0), 0x07);
    assert_eq!(vga_entry_color(1, 2), 0x21);
    assert_eq!(vga_entry_color(15, 15), 0xFF);
    assert_eq!(vga_entry_color(0, 4), 0x40);
}

#[test]
fn attribute_drops_background_bits_above_the_fourth() {
    assert_eq!(vga_entry_color(0, 0x1F), 0xF0);
    assert_eq!(vga_entry_color(0, 0x10), 0x00);
    assert_eq!(vga_entry_color(0x35, 0x02), 0x35);
}

#[test]
fn cell_is_character_low_attribute_high() {
    assert_eq!(vga_entry(b'A', 0x07), 0x0741);
    assert_eq!(vga_entry(b' ', 0x07), GREY_BLANK);
    assert_eq!(vga_entry(0xFF, 0xFF), 0xFFFF);
    assert_eq!(vga_entry(0, 0), 0);
}

#[test]
fn new_console_draws_light_grey_on_black_from_the_top_left() {
    let writer = VGATerminalWriter::new();
    assert_eq!(writer.row(), 0);
    assert_eq!(writer.column(), 0);
    assert_eq!(writer.color(), 7);
}

#[test]
fn character_is_drawn_at_the_cursor_which_moves_on() {
    let mut writer = Console::new();
    writer.putchar(b'H');
    writer.putchar(b'i');
    assert_eq!(writer.buffer()[0], 0x0748);
    assert_eq!(writer.buffer()[1], 0x0769);
    assert_eq!(writer.buffer()[2], GREY_BLANK);
    assert_eq!((writer.row(), writer.column()), (0, 2));
}

#[test]
fn line_feed_goes_to_the_start_of_the_next_row_and_draws_nothing() {
    let mut writer = Console::new();
    writer.putchar(b'x');
    writer.putchar(b'\n');
    assert_eq!((writer.row(), writer.column()), (1, 0));
    writer.putchar(b'y');
    assert_eq!(writer.buffer()[80], 0x0779);
    assert_eq!(writer.buffer().iter().filter(|&&cell| cell != GREY_BLANK).count(), 2);
}

#[test]
fn end_of_a_row_wraps_to_the_next() {
    let mut writer = Console::new();
    writer.write(&[b'a'; 80]);
    assert_eq!((writer.row(), writer.column()), (1, 0));
    assert_eq!(writer.buffer()[79], 0x0761);
    assert_eq!(writer.buffer()[80], GREY_BLANK);
}

#[test]
fn end_of_the_last_row_wraps_to_the_top() {
    let mut writer = Console::new();
    writer.write(&[b'z'; 80 * 25]);
    assert_eq!((writer.row(), writer.column()), (0, 0));
    assert!(writer.buffer().iter().all(|&cell| cell == 0x077A));
    writer.putchar(b'!');
    assert_eq!(writer.buffer()[0], 0x0721);
    assert_eq!(writer.buffer()[1], 0x077A);
}

#[test]
fn line_feed_on_the_last_row_parks_the_cursor_below_the_screen() {
    let mut writer = Console::new();
    writer.write(&[b'\n'; 25]);
    assert_eq!((writer.row(), writer.column()), (25, 0));
    // The next character lands on the top row.
    writer.putchar(b'T');
    assert_eq!((writer.row(), writer.column()), (0, 1));
    assert_eq!(writer.buffer()[0], 0x0754);
}

#[test]
fn line_feed_below_the_screen_goes_to_the_second_row() {
    let mut writer = Console::new();
    writer.write(&[b'\n'; 26]);
    assert_eq!((writer.row(), writer.column()), (1, 0));
}

#[test]
fn colour_set_is_used_from_then_on() {
    let mut writer = Console::new();
    writer.putchar(b'a');
    writer.setcolor(vga_entry_color(VgaColor::VgaColorWhite.code(), VgaColor::VgaColorBlue.code()));
    assert_eq!(writer.color(), 0x1F);
    writer.putchar(b'b');
    assert_eq!(writer.buffer()[0], 0x0761);
    assert_eq!(writer.buffer()[1], 0x1F62);
    assert_eq!((writer.row(), writer.column()), (0, 2));
}

#[test]
fn cell_can_be_drawn_anywhere_without_moving_the_cursor() {
    let mut writer = Console::new();
    writer.putentryat(b'#', 0x4E, 79, 24);
    writer.putentryat(b'@', 0x02, 3, 1);
    assert_eq!(writer.buffer()[24 * 80 + 79], 0x4E23);
    assert_eq!(writer.buffer()[80 + 3], 0x0240);
    assert_eq!((writer.row(), writer.column()), (0, 0));
}

#[test]
fn write_is_putchar_byte_by_byte() {
    let mut one = Console::new();
    let mut other = Console::new();
    let text = b"Boot working.\nAllocator working:\n    A vector: [1, 2, 3, 4]\n";
    one.write(text);
    for &byte in text.iter() {
        other.putchar(byte);
    }
    assert_eq!(one.buffer(), other.buffer());
    assert_eq!((one.row(), one.column()), (other.row(), other.column()));
    assert_eq!((one.row(), one.column()), (3, 0));
    assert_eq!(one.buffer()[80 + 9], 0x0720 - 0x20 + b' ' as u16);
    assert_eq!(one.buffer()[80], 0x0741);
}

#[test]
fn write_of_nothing_changes_nothing() {
    let mut writer = Console::new();
    writer.write(b"ab");
    writer.write(b"");
    assert_eq!((writer.row(), writer.column()), (0, 2));
}

#[test]
fn init_blanks_the_screen_in_the_current_colour() {
    let mut writer = Console::new();
    writer.write(b"some text\nmore");
    writer.setcolor(0x2A);
    init(&writer.writer, &mut writer.cells);
    assert!(writer.buffer().iter().all(|&cell| cell == 0x2A20));
    assert_eq!((writer.row(), writer.column()), (1, 4));
    assert_eq!(writer.color(), 0x2A);
}

#[test]
fn shared_console_writes_the_bytes_of_a_string() {
    let mut shared = StaticVGATerminalWriter::new();
    let mut cells = vec![GREY_BLANK; 80 * 25];
    shared.write_str(&mut cells, "ok\n");
    shared.write_str(&mut cells, "é");
    let writer = shared.writer();
    assert_eq!(cells[0], 0x076F);
    assert_eq!(cells[1], 0x076B);
    assert_eq!(cells[80], 0x07C3);
    assert_eq!(cells[81], 0x07A9);
    assert_eq!((writer.row(), writer.column()), (1, 2));
}
