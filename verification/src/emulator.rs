use vstd::prelude::*;
use crate::cpu::CPU;
use crate::input::{
    InputEvent, HostKey, keymap, keys_after, apply_event, unmapped_presses, has_quit,
};
use crate::semantics::{CpuState, RAM_SIZE, SCREEN_PIXELS, FONT_START, PROGRAM_START};
use crate::timer::TimerState;

verus! {

/// Bytes of the built-in font: sixteen glyphs, 0 to F, five bytes each.
pub const FONTSIZE: usize = 80;

/// The built-in font.
pub const FONT_SET: [u8; FONTSIZE] = [
    0xF0, 0x90, 0x90, 0x90, 0xF0,  // 0
    0x20, 0x60, 0x20, 0x20, 0x70,  // 1
    0xF0, 0x10, 0xF0, 0x80, 0xF0,  // 2
    0xF0, 0x10, 0xF0, 0x10, 0xF0,  // 3
    0x90, 0x90, 0xF0, 0x10, 0x10,  // 4
    0xF0, 0x80, 0xF0, 0x10, 0xF0,  // 5
    0xF0, 0x80, 0xF0, 0x90, 0xF0,  // 6
    0xF0, 0x10, 0x20, 0x40, 0x40,  // 7
    0xF0, 0x90, 0xF0, 0x90, 0xF0,  // 8
    0xF0, 0x90, 0xF0, 0x10, 0xF0,  // 9
    0xF0, 0x90, 0xF0, 0x90, 0x90,  // A
    0xE0, 0x90, 0xE0, 0x90, 0xE0,  // B
    0xF0, 0x80, 0x80, 0x80, 0xF0,  // C
    0xE0, 0x90, 0x90, 0x90, 0xE0,  // D
    0xF0, 0x80, 0xF0, 0x80, 0xF0,  // E
    0xF0, 0x80, 0xF0, 0x80, 0x80,  // F
];

/// What a batch of input events came to.
#[derive(Clone, Copy, Debug, PartialEq, Eq, Structural)]
pub struct InputSummary {
    /// The window was closed.
    pub quit: bool,
    /// How many presses were of keys that stand for no CHIP-8 key.
    pub invalid_presses: usize,
}

/// A CHIP-8 machine: the processor and its timers.
pub struct Emulator {
    pub cpu: CPU,
    pub timers: TimerState,
}

/// The colour byte of a display byte: 255 for a lit pixel, else 0.
pub open spec fn colour(pixel: u8) -> u8 {
    if pixel == 1 {
        255
    } else {
        0
    }
}

impl Emulator {
    /// A machine with the font loaded at 0x050, the program counter at
    /// 0x200, everything else cleared, and the timers at zero and running.
    pub fn new() -> (e: Emulator)
        ensures
            e.cpu.wf(),
            e.cpu@.v == Seq::new(16, |_r: int| 0u8),
            e.cpu@.i == 0,
            e.cpu@.pc == PROGRAM_START,
            e.cpu@.stack == Seq::new(16, |_r: int| 0u16),
            e.cpu@.sp == 0,
            e.cpu@.ram == Seq::new(
                RAM_SIZE as nat,
                |a: int|
                    if FONT_START <= a < FONT_START + FONTSIZE {
                        FONT_SET@[a - FONT_START]
                    } else {
                        0u8
                    },
            ),
            e.cpu@.gfx == Seq::new(SCREEN_PIXELS as nat, |_j: int| 0u8),
            e.cpu@.keys == Seq::new(16, |_r: int| false),
            forall|p: int| 0 <= p < RAM_SIZE ==> #[trigger] e.cpu.cached_blocks()[p] is None,
            e.timers.delay_timer == 0,
            e.timers.sound_timer == 0,
            e.timers.running,
    {
        let fonts = FONT_SET;
        let cpu = CPU::new(fonts.as_slice());
        Emulator { cpu, timers: TimerState::new() }
    }

    /// Copies a program into RAM from 0x200 on.
    pub fn load(&mut self, data: &[u8])
        requires
            PROGRAM_START + data@.len() <= RAM_SIZE,
        ensures
            final(self).cpu@ == (CpuState {
                ram: Seq::new(
                    RAM_SIZE as nat,
                    |a: int|
                        if PROGRAM_START <= a < PROGRAM_START + data@.len() {
                            data@[a - PROGRAM_START]
                        } else {
                            old(self).cpu@.ram[a]
                        },
                ),
                ..old(self).cpu@
            }),
            final(self).cpu.cached_blocks() == old(self).cpu.cached_blocks(),
            final(self).timers == old(self).timers,
    {
        let start_address = PROGRAM_START;
        let mut j: usize = 0;
        while j < data.len()
            invariant
                0 <= j <= data@.len(),
                PROGRAM_START + data@.len() <= RAM_SIZE,
                start_address == PROGRAM_START,
                self.cpu.ram@.len() == RAM_SIZE,
                self.cpu.v == old(self).cpu.v,
                self.cpu.i == old(self).cpu.i,
                self.cpu.pc == old(self).cpu.pc,
                self.cpu.sp == old(self).cpu.sp,
                self.cpu.stack == old(self).cpu.stack,
                self.cpu.gfx == old(self).cpu.gfx,
                self.cpu.keys == old(self).cpu.keys,
                self.cpu.instruction_cache == old(self).cpu.instruction_cache,
                self.timers == old(self).timers,
                forall|a: int|
                    0 <= a < RAM_SIZE ==> #[trigger] self.cpu.ram@[a] == (if PROGRAM_START <= a
                        < PROGRAM_START + j {
                        data@[a - PROGRAM_START]
                    } else {
                        old(self).cpu.ram@[a]
                    }),
            decreases data@.len() - j,
        {
            self.cpu.ram[start_address + j] = data[j];
            j = j + 1;
        }
        proof {
            let want = Seq::new(
                RAM_SIZE as nat,
                |a: int|
                    if PROGRAM_START <= a < PROGRAM_START + data@.len() {
                        data@[a - PROGRAM_START]
                    } else {
                        old(self).cpu@.ram[a]
                    },
            );
            assert(self.cpu@.ram =~= want);
        }
    }

    /// The display, one byte per pixel, row by row.
    fn get_display(&self) -> (r: &[u8; SCREEN_PIXELS])
        ensures
            r@ == self.cpu@.gfx,
    {
        &self.cpu.gfx
    }

    /// Paints the display into an RGB24 pixel buffer: three equal bytes per
    /// pixel, 255 for a lit pixel and 0 otherwise; the rest of the buffer is
    /// left alone.
    pub fn draw_screen(&self, pixel_buffer: &mut [u8])
        requires
            3 * SCREEN_PIXELS <= old(pixel_buffer)@.len(),
        ensures
            final(pixel_buffer)@.len() == old(pixel_buffer)@.len(),
            forall|j: int|
                0 <= j < 3 * SCREEN_PIXELS ==> #[trigger] final(pixel_buffer)@[j] == colour(
                    self.cpu@.gfx[j / 3],
                ),
            forall|j: int|
                3 * SCREEN_PIXELS <= j < old(pixel_buffer)@.len() ==> #[trigger] final(pixel_buffer)@[j]
                    == old(pixel_buffer)@[j],
    {
        let screen_buf = self.get_display();
        let mut i: usize = 0;
        while i < SCREEN_PIXELS
            invariant
                0 <= i <= SCREEN_PIXELS,
                screen_buf@ == self.cpu@.gfx,
                screen_buf@.len() == SCREEN_PIXELS,
                pixel_buffer@.len() == old(pixel_buffer)@.len(),
                3 * SCREEN_PIXELS <= pixel_buffer@.len(),
                forall|j: int|
                    0 <= j < 3 * i ==> #[trigger] pixel_buffer@[j] == colour(self.cpu@.gfx[j / 3]),
                forall|j: int|
                    3 * i <= j < old(pixel_buffer)@.len() ==> #[trigger] pixel_buffer@[j]
                        == old(pixel_buffer)@[j],
            decreases SCREEN_PIXELS - i,
        {
            let offset = i * 3;
            let color: u8 = if screen_buf[i] == 1 {
                255
            } else {
                0
            };
            pixel_buffer[offset] = color;
            pixel_buffer[offset + 1] = color;
            pixel_buffer[offset + 2] = color;
            proof {
                assert(offset / 3 == i as int);
                assert((offset + 1) / 3 == i as int);
                assert((offset + 2) / 3 == i as int);
            }
            i = i + 1;
        }
    }

    /// Marks keypad key `key` as pressed or released.
    fn set_key(&mut self, key: usize, input: bool)
        requires
            key < 16,
        ensures
            final(self).cpu@ == (CpuState {
                keys: old(self).cpu@.keys.update(key as int, input),
                ..old(self).cpu@
            }),
            final(self).cpu.cached_blocks() == old(self).cpu.cached_blocks(),
            final(self).timers == old(self).timers,
    {
        self.cpu.keys[key] = input;
        assert(self.cpu@.keys =~= old(self).cpu@.keys.update(key as int, input));
    }

    /// The CHIP-8 key that a host key stands for.
    fn get_input(&self, key: HostKey) -> (r: Option<usize>)
        ensures
            r == keymap(key),
    {
        match key {
            HostKey::Num1 => Some(0x1),
            HostKey::Num2 => Some(0x2),
            HostKey::Num3 => Some(0x3),
            HostKey::Num4 => Some(0xC),
            HostKey::Q => Some(0x4),
            HostKey::W => Some(0x5),
            HostKey::E => Some(0x6),
            HostKey::R => Some(0xD),
            HostKey::A => Some(0x7),
            HostKey::S => Some(0x8),
            HostKey::D => Some(0x9),
            HostKey::F => Some(0xE),
            HostKey::Z => Some(0xA),
            HostKey::X => Some(0x0),
            HostKey::C => Some(0xB),
            HostKey::V => Some(0xF),
            HostKey::Other => None,
        }
    }

    /// Takes a batch of window events in order: a key press or release of a
    /// mapped host key sets or clears its CHIP-8 key; presses of other keys
    /// are counted; a close request is reported.
    pub fn check_inputs(&mut self, events: &[InputEvent]) -> (r: InputSummary)
        ensures
            final(self).cpu@ == (CpuState {
                keys: keys_after(old(self).cpu@.keys, events@),
                ..old(self).cpu@
            }),
            final(self).cpu.cached_blocks() == old(self).cpu.cached_blocks(),
            final(self).timers == old(self).timers,
            r.quit == has_quit(events@),
            r.invalid_presses == unmapped_presses(events@),
    {
        let mut output = false;
        let mut invalid: usize = 0;
        let mut j: usize = 0;
        while j < events.len()
            invariant
                0 <= j <= events@.len(),
                invalid <= j,
                self.cpu@ == (CpuState {
                    keys: keys_after(old(self).cpu@.keys, events@.take(j as int)),
                    ..old(self).cpu@
                }),
                self.cpu.cached_blocks() == old(self).cpu.cached_blocks(),
                self.timers == old(self).timers,
                output == has_quit(events@.take(j as int)),
                invalid == unmapped_presses(events@.take(j as int)),
            decreases events@.len() - j,
        {
            let ghost prefix = events@.take(j as int);
            let ghost next = events@.take(j + 1);
            proof {
                assert(next.drop_last() =~= prefix);
                assert(next.last() == events@[j as int]);
            }
            match events[j] {
                InputEvent::Quit => {
                    output = true;
                },
                InputEvent::KeyDown(key) => {
                    match self.get_input(key) {
                        Some(k) => {
                            self.set_key(k, true);
                        },
                        None => {
                            invalid = invalid + 1;
                        },
                    }
                },
                InputEvent::KeyUp(key) => {
                    match self.get_input(key) {
                        Some(k) => {
                            self.set_key(k, false);
                        },
                        None => {},
                    }
                },
                InputEvent::Other => {},
            }
            proof {
                assert(has_quit(next) == (has_quit(prefix) || events@[j as int] == InputEvent::Quit)) by {
                    if has_quit(prefix) {
                        let w = choose|q: int| 0 <= q < prefix.len() && prefix[q] == InputEvent::Quit;
                        assert(next[w] == InputEvent::Quit);
                    }
                    if events@[j as int] == InputEvent::Quit {
                        assert(next[j as int] == InputEvent::Quit);
                    }
                    if has_quit(next) {
                        let w = choose|q: int| 0 <= q < next.len() && next[q] == InputEvent::Quit;
                        if w < j {
                            assert(prefix[w] == InputEvent::Quit);
                        }
                    }
                }
            }
            j = j + 1;
        }
        proof {
            assert(events@.take(events@.len() as int) =~= events@);
        }
        InputSummary { quit: output, invalid_presses: invalid }
    }
}


/// A display byte of 1 is painted white (255 in each of red, green and
/// blue), any other byte black (0).
pub proof fn lemma_colour_white_iff_lit(pixel: u8)
    ensures
        (colour(pixel) == 255) == (pixel == 1),
        (colour(pixel) == 0) == (pixel != 1),
{
}

} // verus!
