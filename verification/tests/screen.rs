use kfs::writer::multiscreen::ScreenWriter;
use kfs::writer::screen_writer::screen_char::{Color, ColorCode, ScreenChar};
use kfs::writer::screen_writer::VGAScreen;

fn text(screen: &VGAScreen) -> String {
    screen.get_bottom_line().iter().take_while(|c| **c != 0).map(|c| *c as char).collect()
}

fn write(screen: &mut VGAScreen, s: &str) {
    screen.write_str(&s.as_bytes().to_vec());
}

#[test]
fn colour_code_packs_both_colours() {
    assert_eq!(ColorCode::new(Color::LightGreen, Color::Black).0, 0x0A);
    assert_eq!(ColorCode::new(Color::White, Color::Blue).0, 0x1F);
    assert_eq!(ColorCode::new(Color::Black, Color::White).0, 0xF0);
    assert_eq!(Color::Pink.code(), 13);
}

#[test]
fn blinking_only_touches_the_background() {
    let mut c = ScreenChar { ascii_character: b'x', color_code: ColorCode(0x1F) };
    c.blink();
    assert_eq!(c.color_code.0, 0x8F);
    assert_eq!(c.ascii_character, b'x');
    c.unblink();
    assert_eq!(c.color_code.0, 0x0F);
}

#[test]
fn characters_go_on_the_bottom_line() {
    let mut screen = VGAScreen::new(0xb8000, 10, 3);
    write(&mut screen, "abc");
    assert_eq!(text(&screen), "abc");
    assert_eq!(screen.get_bottom_line(), vec![b'a', b'b', b'c', 0, 0, 0, 0, 0, 0, 0]);
    assert_eq!(screen.address(), 0xb8000);
}

#[test]
fn full_line_begins_a_new_one() {
    let mut screen = VGAScreen::new(0xb8000, 4, 3);
    write(&mut screen, "abcd");
    assert_eq!(text(&screen), "");
    write(&mut screen, "e");
    assert_eq!(text(&screen), "e");
    write(&mut screen, "\nxy\r");
    assert_eq!(text(&screen), "");
}

#[test]
fn tabulation_fills_to_a_multiple_of_four() {
    let mut screen = VGAScreen::new(0xb8000, 20, 2);
    write(&mut screen, "a\tb");
    assert_eq!(text(&screen), "a   b");
    write(&mut screen, "\t");
    assert_eq!(text(&screen), "a   b   ");
    write(&mut screen, "\t|");
    assert_eq!(text(&screen), "a   b       |");
}

#[test]
fn cursor_moves_within_the_text() {
    let mut screen = VGAScreen::new(0xb8000, 10, 2);
    write(&mut screen, "abc");
    screen.right();
    write(&mut screen, "d");
    assert_eq!(text(&screen), "abcd");
    screen.left();
    screen.left();
    write(&mut screen, "X");
    assert_eq!(text(&screen), "abXcd");
    screen.right();
    screen.right();
    screen.right();
    write(&mut screen, "!");
    assert_eq!(text(&screen), "abXcd!");
    for _ in 0..20 {
        screen.left();
    }
    write(&mut screen, ">");
    assert_eq!(text(&screen), ">abXcd!");
}

#[test]
fn backspace_removes_before_the_cursor() {
    let mut screen = VGAScreen::new(0xb8000, 10, 2);
    write(&mut screen, "abcd");
    screen.write_byte(0x8);
    assert_eq!(text(&screen), "abc");
    screen.left();
    screen.left();
    screen.write_byte(0x8);
    assert_eq!(text(&screen), "bc");
    screen.write_byte(0x8);
    assert_eq!(text(&screen), "bc");
}

#[test]
fn inserting_into_a_full_line_drops_the_last_character() {
    let mut screen = VGAScreen::new(0xb8000, 5, 2);
    write(&mut screen, "abcd");
    for _ in 0..4 {
        screen.left();
    }
    write(&mut screen, "X");
    assert_eq!(text(&screen), "Xabcd");
    screen.left();
    write(&mut screen, "Y");
    assert_eq!(text(&screen), "YXabc");
}

#[test]
fn clearing_empties_every_line() {
    let mut screen = VGAScreen::new(0xb8000, 6, 3);
    write(&mut screen, "one\ntwo\nthree");
    screen.clear_screen();
    assert_eq!(screen.get_bottom_line(), vec![0; 6]);
    write(&mut screen, "x");
    assert_eq!(text(&screen), "x");
}

#[test]
fn bottom_line_can_be_replaced() {
    let mut screen = VGAScreen::new(0xb8000, 12, 2);
    write(&mut screen, "something");
    let mut line = b"dump gdt".to_vec();
    line.resize(12, 0);
    screen.swap_bottom_line(&line);
    assert_eq!(text(&screen), "dump gdt");
    write(&mut screen, "r");
    assert_eq!(text(&screen), "dump gdtr");
}

#[test]
fn screens_take_turns() {
    let mut writer = ScreenWriter::new();
    for b in b"first" {
        writer.write_byte(*b);
    }
    writer.next_screen();
    assert_eq!(writer.index(), 1);
    assert_eq!(writer.get_bottom_line()[0], 0);
    for b in b"second" {
        writer.write_byte(*b);
    }
    writer.prev_screen();
    assert_eq!(writer.index(), 0);
    assert_eq!(&writer.get_bottom_line()[0..5], b"first");
    writer.prev_screen();
    assert_eq!(writer.index(), 5);
    writer.next_screen();
    writer.next_screen();
    assert_eq!(writer.index(), 1);
    assert_eq!(&writer.get_bottom_line()[0..6], b"second");
    writer.swap_screen(9);
    assert_eq!(writer.index(), 1);
    writer.swap_screen(4);
    assert_eq!(writer.index(), 4);
    writer.swap_screen(4);
    assert_eq!(writer.get_bottom_line(), vec![0; 80]);
    writer.left();
    writer.right();
    writer.clear_screen();
    assert_eq!(writer.get_bottom_line(), vec![0; 80]);
}
