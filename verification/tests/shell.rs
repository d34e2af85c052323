use kfs::external_symbols::{page_address, ExternalSymbols};
use kfs::ps2::{InterfaceTest, Ps2};
use kfs::shell::{dump, get_number, is_word, next_word, Dump, Instruction, Shell};
use kfs::writer::screen_writer::VGAScreen;

fn run(line: &str) -> (Instruction, Shell, VGAScreen) {
    let mut screen = VGAScreen::new(0xb8000, 40, 4);
    screen.write_str(&line.as_bytes().to_vec());
    let mut shell = Shell::new();
    let instruction = shell.execute(&mut screen);
    (instruction, shell, screen)
}

#[test]
fn first_word_names_the_instruction() {
    assert_eq!(run("shutdown").0, Instruction::Shutdown);
    assert_eq!(run("  reboot  now").0, Instruction::Reboot);
    assert_eq!(run("clear").0, Instruction::Clear);
    assert_eq!(run("").0, Instruction::Nothing);
    assert_eq!(run("clearing").0, Instruction::Nothing);
    assert_eq!(run("dum").0, Instruction::Nothing);
}

#[test]
fn dump_takes_a_target_and_a_number() {
    assert_eq!(run("dump seg_reg").0, Instruction::Dump(Dump::SegmentRegisters));
    assert_eq!(run("dump gdtr").0, Instruction::Dump(Dump::Gdtr));
    assert_eq!(run("dump gdt").0, Instruction::Dump(Dump::Gdt));
    assert_eq!(run("dump bitmap").0, Instruction::Dump(Dump::Bitmap));
    assert_eq!(run("dump stack 12").0, Instruction::Dump(Dump::Stack(12)));
    assert_eq!(run("dump   trace   007 9").0, Instruction::Dump(Dump::Trace(7)));
    assert_eq!(run("dump stack").0, Instruction::Dump(Dump::Stack(0)));
    assert_eq!(run("dump stack 1x").0, Instruction::Dump(Dump::Stack(0)));
    assert_eq!(run("dump").0, Instruction::Dump(Dump::Nothing));
    assert_eq!(run("dump heap").0, Instruction::Dump(Dump::Nothing));
}

#[test]
fn executed_line_leaves_the_screen_and_is_remembered() {
    let (_, shell, mut screen) = run("dump gdt");
    assert_eq!(screen.get_bottom_line(), vec![0; 40]);
    screen.write_str(&b"xyz".to_vec());
    assert!(shell.load_last_command(&mut screen));
    assert_eq!(&screen.get_bottom_line()[0..9], b"dump gdt\0");
    screen.write_byte(b'r');
    assert_eq!(&screen.get_bottom_line()[0..9], b"dump gdtr");
}

#[test]
fn nothing_is_loaded_before_the_first_line() {
    let mut screen = VGAScreen::new(0xb8000, 40, 4);
    screen.write_str(&b"typing".to_vec());
    assert!(!Shell::new().load_last_command(&mut screen));
    assert_eq!(&screen.get_bottom_line()[0..6], b"typing");
}

#[test]
fn words_are_runs_between_blanks() {
    let line = b"\0 ab\tcd\n".to_vec();
    assert_eq!(next_word(&line, 0), (2, 4));
    assert_eq!(next_word(&line, 4), (5, 7));
    assert_eq!(next_word(&line, 7), (8, 8));
    assert!(is_word(&line, 2, 4, &b"ab".to_vec()));
    assert!(!is_word(&line, 2, 4, &b"abc".to_vec()));
    assert!(!is_word(&line, 2, 4, &b"ac".to_vec()));
    assert_eq!(dump(&b"trace 3".to_vec(), 0), Dump::Trace(3));
}

#[test]
fn numbers_are_decimal_and_must_fit() {
    let line = b"42 4x 99999999999999999999999999 0".to_vec();
    assert_eq!(get_number(&line, 0, 2), 42);
    assert_eq!(get_number(&line, 3, 5), 0);
    assert_eq!(get_number(&line, 6, 32), 0);
    assert_eq!(get_number(&line, 33, 34), 0);
    assert_eq!(get_number(&line, 2, 2), 0);
    let max = usize::MAX.to_string().into_bytes();
    assert_eq!(get_number(&max, 0, max.len()), usize::MAX);
}

#[test]
fn controller_status_gates_reads_and_writes() {
    let ps2 = Ps2::new();
    assert_eq!(ps2.status(), 0x64);
    assert_eq!(ps2.command(), 0x64);
    assert_eq!(ps2.read(0b00), None);
    assert_eq!(ps2.read(0b01), Some(0x60));
    assert_eq!(ps2.read(0b11), Some(0x60));
    assert_eq!(ps2.write(0b10), None);
    assert_eq!(ps2.write(0b01), Some(0x60));
}

#[test]
fn controller_configuration_follows_the_tests() {
    let ps2 = Ps2::new();
    assert_eq!(ps2.get_config(0xFF), 0xBC);
    assert!(ps2.is_dual_port(0x00));
    assert!(!ps2.is_dual_port(0x20));
    assert_eq!(ps2.interface_test_ok(0), InterfaceTest::Passed);
    assert_eq!(ps2.interface_test_ok(1), InterfaceTest::ClockLineStuckLow);
    assert_eq!(ps2.interface_test_ok(2), InterfaceTest::ClockLineStuckHigh);
    assert_eq!(ps2.interface_test_ok(3), InterfaceTest::DataLineStuckLow);
    assert_eq!(ps2.interface_test_ok(4), InterfaceTest::DataLineStuckHigh);
    assert_eq!(ps2.interface_test_ok(9), InterfaceTest::UnknownError);
    assert_eq!(ps2.set_config(0x30, true, true), (0x33, vec![0xAE, 0xA8]));
    assert_eq!(ps2.set_config(0x30, true, false), (0x31, vec![0xAE]));
    assert_eq!(ps2.set_config(0x30, false, true), (0x32, vec![0xA8]));
    assert_eq!(ps2.set_config(0x30, false, false), (0x30, vec![]));
}

#[test]
fn kernel_pages_enclose_the_image() {
    let symbols = ExternalSymbols {
        kernel_start: 0x10_0004,
        kernel_end: 0x12_3abc,
        section_text_start: 0x10_1000,
        section_text_end: 0x10_8000,
        section_rodata_start: 0x10_8000,
        section_rodata_end: 0x10_a000,
        section_data_start: 0x10_a000,
        section_data_end: 0x10_b000,
        section_bss_start: 0x10_b000,
        section_bss_end: 0x12_3000,
        stack_low: 0x11_0000,
        stack_high: 0x12_0000,
        common_bss_sep: 0x10_c000,
        first_page_after_kernel: 0x12_4000,
    };
    assert_eq!(symbols.kernel_first_page(), 0x10_0000);
    assert_eq!(symbols.kernel_last_page(), 0x12_3000);
    assert_eq!(symbols.get_stack_high(), 0x12_0000);
    assert_eq!(symbols.get_first_page_after_kernel(), 0x12_4000);
    assert_eq!(page_address(0xFFFF_FFFF), 0xFFFF_F000);
    assert_eq!(page_address(0x1000), 0x1000);
}
