# chip8_jit

A CHIP-8 emulator whose core is verified with Verus.

* `src/instr.rs` — opcodes and their decoding into `Instr`.
* `src/semantics.rs` — the machine model (`CpuState`, `Machine`), the meaning of
  every instruction (`step`), sprite drawing (`draw`), how a block of
  straight-line code is formed from RAM (`is_block_of`) and how a block runs
  (`run_block`).
* `src/block_cache.rs` — the per-address cache of compiled blocks.
* `src/cpu.rs` — the processor: `CPU::new`, the block cache and `CPU::execute`,
  which compiles the block at the program counter on first use and runs it,
  and `draw_sprite`; each proved against `semantics.rs`.
* `src/timer.rs` — the delay and sound timers, their 60 Hz tick and one
  round of the ticking loop (stop, or tick and the time to sleep).
* `src/input.rs` — the host keyboard to keypad mapping and window events.
* `src/emulator.rs` — `Emulator`: font, program loading, painting the display
  into an RGB24 buffer, and applying input events.
* `src/laws.rs` — properties across instructions: drawing twice restores the
  display, collisions, call/return (over single instructions and over two
  runs of `CPU::execute`), store/load of registers, BCD digits,
  carry and borrow, the key wait, non-terminators going on, the font
  address, press and release.
* `app/main.rs` — the SDL window, keyboard, the timer thread and the main loop.

`CPU::execute` takes one random byte per instruction slot of the block for
`CXKK`; the front end supplies them. A block that clears the screen twice
does not compile; `CPU::next_block_compiles` tells beforehand, and the front
end stops there.

`2NNN` and `00EE` keep the stack pointer as a byte that wraps: a return with
an empty stack reads slot 255, and slots from 16 on lie past the stack array,
over the stack-pointer byte and then RAM, in the order the CPU's fields are
laid out.
