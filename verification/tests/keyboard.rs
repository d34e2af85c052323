use kfs::io_port::{InOut, Port};
use kfs::keyboard::{Command, Key, Keyboard, State};
use kfs::pic::{ChainedPics, PortWrite};

fn feed(keyboard: &mut Keyboard, codes: &[usize]) -> Vec<Key> {
    codes.iter().map(|c| keyboard.handle_scan_code(*c)).collect()
}

#[test]
fn plain_keys_give_their_character() {
    let mut keyboard = Keyboard::new();
    assert_eq!(
        feed(&mut keyboard, &[0x1C, 0x32, 0x16, 0x29, 0x0D]),
        vec![
            Key::Character('a'),
            Key::Character('b'),
            Key::Character('1'),
            Key::Character(' '),
            Key::Character('\t')
        ]
    );
    assert_eq!(keyboard.handle_scan_code(0x01), Key::Character('\0'));
    assert_eq!(keyboard.handle_scan_code(0x83), Key::Character('\0'));
    assert_eq!(keyboard.handle_scan_code(0x84), Key::Nop);
}

#[test]
fn release_uses_up_the_next_code() {
    let mut keyboard = Keyboard::new();
    assert_eq!(
        feed(&mut keyboard, &[0x1C, 0xF0, 0x1C, 0x1C]),
        vec![Key::Character('a'), Key::Nop, Key::Nop, Key::Character('a')]
    );
}

#[test]
fn shift_holds_until_released() {
    let mut keyboard = Keyboard::new();
    assert_eq!(
        feed(&mut keyboard, &[0x12, 0x1C, 0x16, 0xF0, 0x12, 0x1C, 0x59, 0x4E, 0xF0, 0x59, 0x4E]),
        vec![
            Key::Nop,
            Key::Character('A'),
            Key::Character('!'),
            Key::Nop,
            Key::Nop,
            Key::Character('a'),
            Key::Nop,
            Key::Character('_'),
            Key::Nop,
            Key::Nop,
            Key::Character('-')
        ]
    );
}

#[test]
fn extended_codes_are_commands() {
    let mut keyboard = Keyboard::new();
    assert_eq!(
        feed(&mut keyboard, &[0xE0, 0x6B, 0xE0, 0x74, 0xE0, 0x75, 0xE0, 0x1C, 0x5A]),
        vec![
            Key::Nop,
            Key::Command(Command::Left),
            Key::Nop,
            Key::Command(Command::Right),
            Key::Nop,
            Key::Command(Command::LastCommand),
            Key::Nop,
            Key::Nop,
            Key::Command(Command::Enter)
        ]
    );
    // the release of an extended key means nothing
    assert_eq!(feed(&mut keyboard, &[0xE0, 0xF0, 0x6B]), vec![Key::Nop, Key::Nop, Key::Nop]);
    assert_eq!(keyboard.handle_scan_code(0x6B), Key::Character('4'));
}

#[test]
fn control_turns_arrows_into_screen_changes() {
    let mut keyboard = Keyboard::new();
    assert_eq!(
        feed(&mut keyboard, &[0x14, 0xE0, 0x6B, 0xE0, 0x74, 0xF0, 0x14, 0xE0, 0x6B]),
        vec![
            Key::Nop,
            Key::Nop,
            Key::Command(Command::Prev),
            Key::Nop,
            Key::Command(Command::Next),
            Key::Nop,
            Key::Nop,
            Key::Nop,
            Key::Command(Command::Left)
        ]
    );
}

#[test]
fn state_bits_are_independent() {
    let mut state = State::new();
    state.set_shift(true);
    state.set_release(true);
    assert!(state.shift() && state.release() && !state.extended() && !state.control());
    state.set_extended(true);
    state.set_shift(false);
    assert!(!state.shift() && state.release() && state.extended());
    state.refresh_control();
    assert!(!state.control() && !state.release() && !state.extended());
    state.refresh_control();
    assert!(state.control());
    state.refresh_shift();
    assert!(state.shift() && state.control());
    state.set_release(true);
    state.refresh_shift();
    assert!(!state.shift() && !state.release() && state.control());
    state.set_control(false);
    assert!(!state.control());
}

#[test]
fn controllers_share_sixteen_interrupts() {
    let pics = ChainedPics::new(0x20, 0x28);
    assert!(!pics.handles_interrupt(0x1F));
    assert!(pics.handles_interrupt(0x20));
    assert!(pics.handles_interrupt(0x27));
    assert!(pics.handles_interrupt(0x28));
    assert!(pics.handles_interrupt(0x2F));
    assert!(!pics.handles_interrupt(0x30));
    let high = ChainedPics::new(0xF0, 0xF8);
    assert!(high.handles_interrupt(0xFF));
    assert!(!high.handles_interrupt(0x00));
}

#[test]
fn end_of_interrupt_reaches_the_right_controllers() {
    let pics = ChainedPics::new(0x20, 0x28);
    assert_eq!(
        pics.notify_end_of_interrupt(0x21),
        vec![PortWrite { port: 0x20, value: 0x20 }]
    );
    assert_eq!(
        pics.notify_end_of_interrupt(0x2A),
        vec![PortWrite { port: 0xA0, value: 0x20 }, PortWrite { port: 0x20, value: 0x20 }]
    );
    assert!(pics.notify_end_of_interrupt(0x40).is_empty());
}

#[test]
fn initialisation_sets_offsets_and_restores_masks() {
    let pics = ChainedPics::new(0x20, 0x28);
    let writes = pics.initialize(0xFB, 0xFF);
    assert_eq!(writes.len(), 10);
    assert_eq!(writes[0], PortWrite { port: 0x20, value: 0x11 });
    assert_eq!(writes[1], PortWrite { port: 0xA0, value: 0x11 });
    assert_eq!(writes[2], PortWrite { port: 0x21, value: 0x20 });
    assert_eq!(writes[3], PortWrite { port: 0xA1, value: 0x28 });
    assert_eq!(writes[4], PortWrite { port: 0x21, value: 4 });
    assert_eq!(writes[5], PortWrite { port: 0xA1, value: 2 });
    assert_eq!(writes[8], PortWrite { port: 0x21, value: 0xFB });
    assert_eq!(writes[9], PortWrite { port: 0xA1, value: 0xFF });
}

#[test]
fn ports_know_their_number_and_width() {
    let port: Port<u8> = Port::new(0x60);
    assert_eq!(port.port(), 0x60);
    assert_eq!(<u8 as InOut>::width(), 1);
    assert_eq!(<u16 as InOut>::width(), 2);
    assert_eq!(<u32 as InOut>::width(), 4);
}
