use chip8_jit::{Emulator, HostKey, InputEvent, InputSummary, TimerState};

const MAPPED: [HostKey; 16] = [
    HostKey::Num1,
    HostKey::Num2,
    HostKey::Num3,
    HostKey::Num4,
    HostKey::Q,
    HostKey::W,
    HostKey::E,
    HostKey::R,
    HostKey::A,
    HostKey::S,
    HostKey::D,
    HostKey::F,
    HostKey::Z,
    HostKey::X,
    HostKey::C,
    HostKey::V,
];

#[test]
fn key_down_and_up_set_and_clear_keys() {
    let mut emu = Emulator::new();
    let r = emu.check_inputs(&[InputEvent::KeyDown(HostKey::Q)]);
    assert_eq!(r, InputSummary { quit: false, invalid_presses: 0 });
    assert!(emu.cpu.keys[4]);
    let r = emu.check_inputs(&[InputEvent::KeyUp(HostKey::Q)]);
    assert_eq!(r, InputSummary { quit: false, invalid_presses: 0 });
    assert!(!emu.cpu.keys[4]);
}

#[test]
fn press_then_release_in_one_batch_leaves_key_up() {
    let mut emu = Emulator::new();
    emu.check_inputs(&[InputEvent::KeyDown(HostKey::V), InputEvent::KeyUp(HostKey::V)]);
    assert!(!emu.cpu.keys[0xF]);
    emu.check_inputs(&[InputEvent::KeyUp(HostKey::V), InputEvent::KeyDown(HostKey::V)]);
    assert!(emu.cpu.keys[0xF]);
}

#[test]
fn unmapped_presses_are_counted_and_quit_is_reported() {
    let mut emu = Emulator::new();
    let r = emu.check_inputs(&[
        InputEvent::KeyDown(HostKey::Other),
        InputEvent::KeyUp(HostKey::Other),
        InputEvent::Other,
        InputEvent::KeyDown(HostKey::Other),
        InputEvent::Quit,
        InputEvent::KeyDown(HostKey::X),
    ]);
    assert_eq!(r, InputSummary { quit: true, invalid_presses: 2 });
    assert!(emu.cpu.keys[0]);
    assert_eq!(emu.cpu.keys.iter().filter(|&&k| k).count(), 1);
}

#[test]
fn no_events_change_nothing() {
    let mut emu = Emulator::new();
    let r = emu.check_inputs(&[]);
    assert_eq!(r, InputSummary { quit: false, invalid_presses: 0 });
    assert!(emu.cpu.keys.iter().all(|&k| !k));
}

#[test]
fn keymap_reaches_each_chip8_key_once() {
    let mut seen = [0usize; 16];
    for key in MAPPED {
        let mut emu = Emulator::new();
        emu.check_inputs(&[InputEvent::KeyDown(key)]);
        let down: Vec<usize> = (0..16).filter(|&k| emu.cpu.keys[k]).collect();
        assert_eq!(down.len(), 1);
        seen[down[0]] += 1;
    }
    assert_eq!(seen, [1usize; 16]);
}

#[test]
fn keymap_layout() {
    let expected = [0x1, 0x2, 0x3, 0xC, 0x4, 0x5, 0x6, 0xD, 0x7, 0x8, 0x9, 0xE, 0xA, 0x0, 0xB, 0xF];
    for (key, want) in MAPPED.iter().zip(expected.iter()) {
        let mut emu = Emulator::new();
        emu.check_inputs(&[InputEvent::KeyDown(*key)]);
        assert!(emu.cpu.keys[*want]);
    }
}

#[test]
fn draw_screen_paints_rgb() {
    let mut emu = Emulator::new();
    emu.cpu.gfx[0] = 1;
    emu.cpu.gfx[2047] = 1;
    emu.cpu.gfx[5] = 2;
    let mut buf = vec![7u8; 3 * 2048 + 4];
    emu.draw_screen(&mut buf);
    assert_eq!(&buf[0..3], &[255, 255, 255]);
    assert_eq!(&buf[3..6], &[0, 0, 0]);
    assert_eq!(&buf[15..18], &[0, 0, 0]);
    assert_eq!(&buf[3 * 2047..3 * 2048], &[255, 255, 255]);
    assert_eq!(&buf[3 * 2048..], &[7, 7, 7, 7]);
}

#[test]
fn timer_new_starts_at_zero_running() {
    let t = TimerState::new();
    assert_eq!(t.delay_timer, 0);
    assert_eq!(t.sound_timer, 0);
    assert!(t.running);
}

#[test]
fn timers_count_down_and_stop_at_zero() {
    let mut t = TimerState { delay_timer: 3, sound_timer: 1, running: true };
    t.tick();
    assert_eq!((t.delay_timer, t.sound_timer), (2, 0));
    t.tick();
    t.tick();
    assert_eq!((t.delay_timer, t.sound_timer), (0, 0));
    t.tick();
    assert_eq!((t.delay_timer, t.sound_timer), (0, 0));
    assert!(t.running);
    // n ticks from d: max(0, d - n)
    let mut t = TimerState { delay_timer: 200, sound_timer: 7, running: false };
    for _ in 0..10 {
        t.tick();
    }
    assert_eq!((t.delay_timer, t.sound_timer, t.running), (190, 0, false));
}

#[test]
fn tick_round_stops_once_running_is_cleared() {
    let mut t = TimerState { delay_timer: 5, sound_timer: 2, running: false };
    assert_eq!(t.tick_round(0, 0), None);
    assert_eq!((t.delay_timer, t.sound_timer, t.running), (5, 2, false));
}

#[test]
fn tick_round_ticks_and_sleeps_until_the_next_deadline() {
    let mut t = TimerState { delay_timer: 5, sound_timer: 0, running: true };
    assert_eq!(t.tick_round(0, 1_000_000), Some((16_666_667, 15_666_667)));
    assert_eq!((t.delay_timer, t.sound_timer, t.running), (4, 0, true));
    // a deadline already passed gives no sleep
    assert_eq!(t.tick_round(16_666_667, 40_000_000), Some((33_333_334, 0)));
    assert_eq!(t.delay_timer, 3);
}
