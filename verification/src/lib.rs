//! A CHIP-8 emulator core: instruction decoding, compilation of straight-line
//! runs of instructions into blocks kept in a per-address cache, the machine
//! semantics of every instruction, the sprite renderer, the 60 Hz timers and
//! the keypad mapping.

pub mod block_cache;
pub mod cpu;
pub mod emulator;
pub mod input;
pub mod instr;
pub mod instr_laws;
pub mod laws;
pub mod semantics;
pub mod timer;

pub use cpu::{draw_sprite, CPU};
pub use emulator::{Emulator, InputSummary, FONT_SET};
pub use input::{HostKey, InputEvent};
pub use instr::{decode, Instr};
pub use semantics::{MAX_BLOCK_INSTRUCTIONS, PROGRAM_START, RAM_SIZE, SCREEN_PIXELS};
pub use timer::TimerState;
