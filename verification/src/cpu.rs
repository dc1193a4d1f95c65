use vstd::prelude::*;
use crate::instr::{Instr, decode, is_terminator, operands_in_range, spec_decode, spec_fetch, spec_is_terminator};
use crate::semantics::{
    CpuState, Machine, slot_get, slot_set, cache_ok, block_bounds, is_block_of, RAM_SIZE, SCREEN_PIXELS,
    draw, flips, flipped, collided, pixel_index, sprite_bit, lemma_flips_next, lemma_flipped_next,
    lemma_collided_next, lemma_pixel_index_bounds, mem_get, mem_set, transfer_base, step,
    first_pressed, first_pressed_from, store_regs, load_regs, block_at, lemma_block_at, run_block,
    run_from, block_start, next_pc, clears_at_most_once, lemma_run_from_unfold, lemma_run_from_done,
    FONT_START, MAX_BLOCK_INSTRUCTIONS, PROGRAM_START,
};
use crate::timer::TimerState;
use crate::block_cache::BlockCache;

verus! {

/// The CHIP-8 processor: registers, call stack, RAM, display and keypad,
/// with a cache of the blocks already compiled, one slot per address.
pub struct CPU {
    pub v: [u8; 16],
    pub i: u16,
    pub pc: u16,
    pub stack: [u16; 16],
    pub sp: u8,
    pub ram: [u8; RAM_SIZE],
    pub gfx: [u8; SCREEN_PIXELS],
    pub keys: [bool; 16],
    pub instruction_cache: BlockCache,
}

impl View for CPU {
    type V = CpuState;

    open spec fn view(&self) -> CpuState {
        CpuState {
            v: self.v@,
            i: self.i,
            pc: self.pc,
            stack: self.stack@,
            sp: self.sp,
            ram: self.ram@,
            gfx: self.gfx@,
            keys: self.keys@,
        }
    }
}

/// The machine made of a CPU state and the timers.
pub open spec fn machine(c: CpuState, t: TimerState) -> Machine {
    Machine { cpu: c, delay: t.delay_timer, sound: t.sound_timer }
}

/// The delay timer of the machine is the `delay_timer` field and its sound
/// timer the `sound_timer` field, and going back from the machine gives the
/// same CPU state and timer values.
pub proof fn lemma_machine_timers(c: CpuState, t: TimerState)
    ensures
        machine(c, t).cpu == c,
        machine(c, t).delay == t.delay_timer,
        machine(c, t).sound == t.sound_timer,
{
}

impl CPU {
    /// The compiled blocks, by start address.
    pub open spec fn cached_blocks(&self) -> Seq<Option<Seq<Instr>>> {
        self.instruction_cache@
    }

    /// The cache has a slot for each address and each cached block fits its
    /// slot.
    pub open spec fn wf(&self) -> bool {
        cache_ok(self.cached_blocks())
    }

    /// The shapes of the arrays.
    pub proof fn lemma_shaped(&self)
        ensures
            crate::semantics::shaped(self@),
    {
    }

    /// A CPU with all registers, stack, display and keys cleared, the
    /// program counter at 0x200, `fonts` copied into RAM from 0x050 on and
    /// the rest of RAM zero, and no block compiled yet.
    pub fn new(fonts: &[u8]) -> (cpu: CPU)
        requires
            FONT_START + fonts@.len() <= RAM_SIZE,
        ensures
            cpu.wf(),
            cpu@.v == Seq::new(16, |_r: int| 0u8),
            cpu@.i == 0,
            cpu@.pc == 0x200,
            cpu@.stack == Seq::new(16, |_r: int| 0u16),
            cpu@.sp == 0,
            cpu@.ram == Seq::new(
                RAM_SIZE as nat,
                |a: int|
                    if FONT_START <= a < FONT_START + fonts@.len() {
                        fonts@[a - FONT_START]
                    } else {
                        0u8
                    },
            ),
            cpu@.gfx == Seq::new(SCREEN_PIXELS as nat, |_j: int| 0u8),
            cpu@.keys == Seq::new(16, |_r: int| false),
            forall|p: int| 0 <= p < RAM_SIZE ==> #[trigger] cpu.cached_blocks()[p] is None,
    {
        let instruction_cache = BlockCache::new();
        let mut ram = [0u8; RAM_SIZE];
        let mut j: usize = 0;
        while j < fonts.len()
            invariant
                0 <= j <= fonts@.len(),
                FONT_START + fonts@.len() <= RAM_SIZE,
                ram@.len() == RAM_SIZE,
                forall|a: int|
                    0 <= a < RAM_SIZE ==> #[trigger] ram@[a] == (if FONT_START <= a < FONT_START + j {
                        fonts@[a - FONT_START]
                    } else {
                        0u8
                    }),
            decreases fonts@.len() - j,
        {
            ram[FONT_START + j] = fonts[j];
            j = j + 1;
        }
        let cpu = CPU {
            v: [0u8; 16],
            i: 0,
            pc: 0x200,
            stack: [0u16; 16],
            sp: 0,
            ram,
            gfx: [0u8; SCREEN_PIXELS],
            keys: [false; 16],
            instruction_cache,
        };
        assert(cpu@.v =~= Seq::new(16, |_r: int| 0u8));
        assert(cpu@.stack =~= Seq::new(16, |_r: int| 0u16));
        assert(cpu@.gfx =~= Seq::new(SCREEN_PIXELS as nat, |_j: int| 0u8));
        assert(cpu@.keys =~= Seq::new(16, |_r: int| false));
        cpu
    }
}

} // verus!

verus! {

/// Draws the `n`-row sprite stored at I onto the display at
/// `(vx mod 64, vy mod 32)`, XORing each set sprite pixel onto the screen and
/// wrapping at the edges; VF ends as 1 when a set sprite pixel met a pixel
/// that was 1, else 0.
#[verifier::rlimit(60)]
#[verifier::spinoff_prover]
pub fn draw_sprite(cpu: &mut CPU, vx: u8, vy: u8, n: u8)
    ensures
        final(cpu)@ == draw(old(cpu)@, vx, vy, n),
        final(cpu).cached_blocks() == old(cpu).cached_blocks(),
{
    let ghost c0 = cpu@;
    proof {
        cpu.lemma_shaped();
    }
    let start_x = (vx as usize) % 64;
    let start_y = (vy as usize) % 32;

    cpu.v[15] = 0;

    let mut row: usize = 0;
    while row < n as usize
        invariant
            0 <= row <= n,
            cpu.v@.len() == 16,
            cpu.gfx@.len() == SCREEN_PIXELS,
            start_x == vx % 64,
            start_y == vy % 32,
            cpu.i == c0.i,
            cpu.pc == c0.pc,
            cpu.sp == c0.sp,
            cpu.ram@ == c0.ram,
            cpu.stack@ == c0.stack,
            cpu.keys@ == c0.keys,
            cpu.instruction_cache == old(cpu).instruction_cache,
            forall|r: int| 0 <= r < 15 ==> #[trigger] cpu.v@[r] == c0.v[r],
            forall|idx: int|
                0 <= idx < SCREEN_PIXELS ==> #[trigger] cpu.gfx@[idx] == flipped(
                    c0.gfx[idx],
                    flips(c0.ram, c0.i, vx, vy, idx, (8 * row) as nat),
                ),
            cpu.v@[15] == (if exists|idx: int|
                0 <= idx < SCREEN_PIXELS && #[trigger] collided(
                    c0.gfx[idx],
                    flips(c0.ram, c0.i, vx, vy, idx, (8 * row) as nat),
                ) {
                1u8
            } else {
                0u8
            }),
        decreases n - row,
    {
        let y = (start_y + row) % 32;
        let a = cpu.i as usize + row;
        let addr = a & 0xFFF;
        assert(addr == a % 4096) by (bit_vector)
            requires
                addr == a & 0xFFF,
        ;
        let sprite_byte = cpu.ram[addr];
        let mut col: usize = 0;
        assert((8 * row + col) as nat == (8 * row) as nat);
        while col < 8
            invariant
                0 <= row < n,
                0 <= col <= 8,
                cpu.v@.len() == 16,
                cpu.gfx@.len() == SCREEN_PIXELS,
                start_x == vx % 64,
                start_y == vy % 32,
                y == (start_y + row) % 32,
                sprite_byte == c0.ram[(c0.i + row) % 4096],
                cpu.i == c0.i,
                cpu.pc == c0.pc,
                cpu.sp == c0.sp,
                cpu.ram@ == c0.ram,
                cpu.stack@ == c0.stack,
                cpu.keys@ == c0.keys,
                cpu.instruction_cache == old(cpu).instruction_cache,
                forall|r: int| 0 <= r < 15 ==> #[trigger] cpu.v@[r] == c0.v[r],
                forall|idx: int|
                    0 <= idx < SCREEN_PIXELS ==> #[trigger] cpu.gfx@[idx] == flipped(
                        c0.gfx[idx],
                        flips(c0.ram, c0.i, vx, vy, idx, (8 * row + col) as nat),
                    ),
                cpu.v@[15] == (if exists|idx: int|
                    0 <= idx < SCREEN_PIXELS && #[trigger] collided(
                        c0.gfx[idx],
                        flips(c0.ram, c0.i, vx, vy, idx, (8 * row + col) as nat),
                    ) {
                    1u8
                } else {
                    0u8
                }),
            decreases 8 - col,
        {
            let ghost k: int = 8 * row + col;
            let x = (start_x + col) % 64;
            let sprite_pixel = (sprite_byte >> ((7 - col) as u8)) & 1;
            let gfx_idx = y * 64 + x;
            proof {
                assert(k / 8 == row as int && k % 8 == col as int) by (nonlinear_arith)
                    requires
                        k == 8 * row + col,
                        0 <= col < 8,
                ;
                assert(y == (vy + row) % 32) by {
                    vstd::arithmetic::div_mod::lemma_add_mod_noop(vy as int, row as int, 32);
                    vstd::arithmetic::div_mod::lemma_mod_twice(row as int, 32);
                }
                assert(x == (vx + col) % 64) by {
                    vstd::arithmetic::div_mod::lemma_add_mod_noop(vx as int, col as int, 64);
                    vstd::arithmetic::div_mod::lemma_mod_twice(col as int, 64);
                }
                assert(gfx_idx == pixel_index(vx, vy, k));
                lemma_pixel_index_bounds(vx, vy, k);
                assert((sprite_pixel == 1) == sprite_bit(c0.ram, c0.i, k));
            }
            let ghost vf_before = cpu.v@[15];
            let ghost gfx_before = cpu.gfx@;
            if sprite_pixel == 1 {
                if cpu.gfx[gfx_idx] == 1 {
                    cpu.v[15] = 1;
                }
                cpu.gfx[gfx_idx] = cpu.gfx[gfx_idx] ^ 1;
            }
            proof {
                assert forall|idx: int| 0 <= idx < SCREEN_PIXELS implies #[trigger] cpu.gfx@[idx]
                    == flipped(c0.gfx[idx], flips(c0.ram, c0.i, vx, vy, idx, (k + 1) as nat)) by {
                    lemma_flips_next(c0.ram, c0.i, vx, vy, idx, k as nat);
                    lemma_flipped_next(c0.gfx[idx], flips(c0.ram, c0.i, vx, vy, idx, k as nat));
                }
                let hit = sprite_pixel == 1;
                let e_before = exists|idx: int|
                    0 <= idx < SCREEN_PIXELS && #[trigger] collided(
                        c0.gfx[idx],
                        flips(c0.ram, c0.i, vx, vy, idx, k as nat),
                    );
                let e_after = exists|idx: int|
                    0 <= idx < SCREEN_PIXELS && #[trigger] collided(
                        c0.gfx[idx],
                        flips(c0.ram, c0.i, vx, vy, idx, (k + 1) as nat),
                    );
                let g = gfx_idx as int;
                lemma_flips_next(c0.ram, c0.i, vx, vy, g, k as nat);
                lemma_collided_next(c0.gfx[g], flips(c0.ram, c0.i, vx, vy, g, k as nat));
                assert(e_after == (e_before || (hit && gfx_before[g] == 1))) by {
                    if e_before {
                        let w = choose|idx: int|
                            0 <= idx < SCREEN_PIXELS && #[trigger] collided(
                                c0.gfx[idx],
                                flips(c0.ram, c0.i, vx, vy, idx, k as nat),
                            );
                        lemma_flips_next(c0.ram, c0.i, vx, vy, w, k as nat);
                        lemma_collided_next(c0.gfx[w], flips(c0.ram, c0.i, vx, vy, w, k as nat));
                        assert(collided(c0.gfx[w], flips(c0.ram, c0.i, vx, vy, w, (k + 1) as nat)));
                    }
                    if hit && gfx_before[g] == 1 {
                        assert(collided(c0.gfx[g], flips(c0.ram, c0.i, vx, vy, g, (k + 1) as nat)));
                    }
                    if e_after {
                        let w = choose|idx: int|
                            0 <= idx < SCREEN_PIXELS && #[trigger] collided(
                                c0.gfx[idx],
                                flips(c0.ram, c0.i, vx, vy, idx, (k + 1) as nat),
                            );
                        lemma_flips_next(c0.ram, c0.i, vx, vy, w, k as nat);
                        lemma_collided_next(c0.gfx[w], flips(c0.ram, c0.i, vx, vy, w, k as nat));
                        if !(hit && w == g) {
                            assert(collided(c0.gfx[w], flips(c0.ram, c0.i, vx, vy, w, k as nat)));
                        }
                    }
                }
                assert((8 * row + col + 1) as nat == (k + 1) as nat);
            }
            col = col + 1;
        }
        assert((8 * row + col) as nat == (8 * (row + 1)) as nat);
        row = row + 1;
    }
    proof {
        let c1 = cpu@;
        let d = draw(c0, vx, vy, n);
        assert(c1.gfx =~= d.gfx);
        assert(c1.v =~= d.v);
    }
}

} // verus!

verus! {

impl CPU {
    /// Reads byte `a` of RAM-then-display.
    fn mem_read(&self, a: usize) -> (b: u8)
        requires
            a < RAM_SIZE + SCREEN_PIXELS,
        ensures
            b == mem_get(self@, a as int),
    {
        if a < RAM_SIZE {
            self.ram[a]
        } else {
            self.gfx[a - RAM_SIZE]
        }
    }

    /// Writes byte `a` of RAM-then-display.
    fn mem_write(&mut self, a: usize, b: u8)
        requires
            a < RAM_SIZE + SCREEN_PIXELS,
        ensures
            final(self)@ == mem_set(old(self)@, a as int, b),
            final(self).cached_blocks() == old(self).cached_blocks(),
    {
        if a < RAM_SIZE {
            self.ram[a] = b;
        } else {
            self.gfx[a - RAM_SIZE] = b;
        }
        proof {
            assert(self@.ram =~= mem_set(old(self)@, a as int, b).ram);
            assert(self@.gfx =~= mem_set(old(self)@, a as int, b).gfx);
        }
    }

    /// The transfer base `I & 0xFFF`.
    fn transfer_base(&self) -> (b: usize)
        ensures
            b == transfer_base(self@.i),
            b < RAM_SIZE,
    {
        let i = self.i;
        let b = i & 0xFFF;
        assert(b == i % 4096) by (bit_vector)
            requires
                b == i & 0xFFF,
        ;
        b as usize
    }

    /// Runs one instruction; `next` is the address after it and `r` the
    /// random byte for `CXKK`.
    fn step(&mut self, timers: &mut TimerState, ins: Instr, next: u16, r: u8)
        requires
            operands_in_range(ins),
        ensures
            final(self).cached_blocks() == old(self).cached_blocks(),
            final(timers).running == old(timers).running,
            step_post(machine(old(self)@, *old(timers)), machine(final(self)@, *final(timers)), ins, next, r),
    {
        proof {
            reveal(step);
        }
        match ins {
            Instr::Return | Instr::Jump { .. } | Instr::Call { .. } | Instr::JumpOffset { .. } => {
                self.exec_control(timers, ins, next, r);
            },
            Instr::SkipEqImm { .. } | Instr::SkipNeImm { .. } | Instr::SkipEqReg { .. }
            | Instr::SkipNeReg { .. } | Instr::SkipKeyPressed { .. } | Instr::SkipKeyReleased {
                ..
            } => {
                self.exec_skip(timers, ins, next, r);
            },
            Instr::LoadImm { .. } | Instr::AddImm { .. } | Instr::Move { .. } | Instr::Or { .. }
            | Instr::And { .. } | Instr::Xor { .. } | Instr::Random { .. } => {
                self.exec_logic(timers, ins, next, r);
            },
            Instr::AddReg { .. } | Instr::SubReg { .. } | Instr::ShiftRight { .. }
            | Instr::SubReverse { .. } | Instr::ShiftLeft { .. } => {
                self.exec_arith(timers, ins, next, r);
            },
            Instr::LoadIndex { .. } | Instr::AddIndex { .. } | Instr::FontAddress { .. }
            | Instr::LoadDelay { .. } | Instr::SetDelay { .. } | Instr::SetSound { .. } => {
                self.exec_index_timer(timers, ins, next, r);
            },
            Instr::WaitKey { .. } => {
                self.exec_wait_key(timers, ins, next, r);
            },
            Instr::StoreBcd { .. } | Instr::StoreRegs { .. } | Instr::LoadRegs { .. } => {
                self.exec_transfer(timers, ins, next, r);
            },
            Instr::ClearScreen => {
                self.pc = next;
                self.gfx = [0u8; SCREEN_PIXELS];
                assert(self@.gfx =~= Seq::new(SCREEN_PIXELS as nat, |_j: int| 0u8));
            },
            Instr::Draw { x, y, n } => {
                self.pc = next;
                let vx = self.v[x as usize];
                let vy = self.v[y as usize];
                draw_sprite(self, vx, vy, n);
            },
            Instr::Unknown => {
                self.pc = next;
            },
        }
    }

    /// Stack slot `s`: see `slot_get`.
    fn slot_read(&self, s: u8) -> (w: u16)
        ensures
            w == slot_get(self@, s as int),
    {
        if s < 16 {
            self.stack[s as usize]
        } else if s == 16 {
            self.sp as u16 + 256 * self.ram[0] as u16
        } else {
            let lo = 2 * (s as usize) - 33;
            self.ram[lo] as u16 + 256 * self.ram[lo + 1] as u16
        }
    }

    /// Writes stack slot `s`: see `slot_set`.
    fn slot_write(&mut self, s: u8, w: u16)
        ensures
            final(self)@ == slot_set(old(self)@, s as int, w),
            final(self).cached_blocks() == old(self).cached_blocks(),
    {
        if s < 16 {
            self.stack[s as usize] = w;
            assert(self@.stack =~= old(self)@.stack.update(s as int, w));
        } else if s == 16 {
            self.sp = (w % 256) as u8;
            self.ram[0] = (w / 256) as u8;
            assert(self@.ram =~= old(self)@.ram.update(0, (w / 256) as u8));
        } else {
            let lo = 2 * (s as usize) - 33;
            self.ram[lo] = (w % 256) as u8;
            self.ram[lo + 1] = (w / 256) as u8;
            assert(self@.ram =~= old(self)@.ram.update(lo as int, (w % 256) as u8).update(
                lo + 1,
                (w / 256) as u8,
            ));
        }
    }

    /// `00EE`, `1NNN`, `2NNN`, `BNNN`.
    #[verifier::rlimit(30)]
    fn exec_control(&mut self, timers: &TimerState, ins: Instr, next: u16, r: u8)
        requires
            operands_in_range(ins),
            ins is Return || ins is Jump || ins is Call || ins is JumpOffset,
        ensures
            final(self).cached_blocks() == old(self).cached_blocks(),
            step_post(machine(old(self)@, *timers), machine(final(self)@, *timers), ins, next, r),
    {
        proof {
            reveal(step);
        }
        self.pc = next;
        match ins {
            Instr::Return => {
                self.sp = ((self.sp as u16 + 255) % 256) as u8;
                let w = self.slot_read(self.sp);
                self.pc = w;
            },
            Instr::Jump { addr } => {
                self.pc = addr;
            },
            Instr::Call { addr } => {
                let sp = self.sp;
                self.slot_write(sp, next);
                self.sp = ((self.sp as u16 + 1) % 256) as u8;
                self.pc = addr;
            },
            Instr::JumpOffset { addr } => {
                self.pc = ((self.v[0] as u32 + addr as u32) % 65536) as u16;
            },
            _ => {},
        }
    }

    /// The skip instructions.
    fn exec_skip(&mut self, timers: &TimerState, ins: Instr, next: u16, r: u8)
        requires
            operands_in_range(ins),
            ins is SkipEqImm || ins is SkipNeImm || ins is SkipEqReg || ins is SkipNeReg
                || ins is SkipKeyPressed || ins is SkipKeyReleased,
        ensures
            final(self).cached_blocks() == old(self).cached_blocks(),
            step_post(machine(old(self)@, *timers), machine(final(self)@, *timers), ins, next, r),
    {
        proof {
            reveal(step);
        }
        let cond = match ins {
            Instr::SkipEqImm { x, kk } => self.v[x as usize] == kk,
            Instr::SkipNeImm { x, kk } => self.v[x as usize] != kk,
            Instr::SkipEqReg { x, y } => self.v[x as usize] == self.v[y as usize],
            Instr::SkipNeReg { x, y } => self.v[x as usize] != self.v[y as usize],
            Instr::SkipKeyPressed { x } => self.keys[(self.v[x as usize] % 16) as usize],
            Instr::SkipKeyReleased { x } => !self.keys[(self.v[x as usize] % 16) as usize],
            _ => false,
        };
        if cond {
            self.pc = ((next as u32 + 2) % 65536) as u16;
        } else {
            self.pc = next;
        }
    }

    /// `6XKK`, `7XKK`, `8XY0` to `8XY3`, `CXKK`.
    fn exec_logic(&mut self, timers: &TimerState, ins: Instr, next: u16, r: u8)
        requires
            operands_in_range(ins),
            ins is LoadImm || ins is AddImm || ins is Move || ins is Or || ins is And || ins is Xor
                || ins is Random,
        ensures
            final(self).cached_blocks() == old(self).cached_blocks(),
            step_post(machine(old(self)@, *timers), machine(final(self)@, *timers), ins, next, r),
    {
        proof {
            reveal(step);
        }
        self.pc = next;
        match ins {
            Instr::LoadImm { x, kk } => {
                self.v[x as usize] = kk;
            },
            Instr::AddImm { x, kk } => {
                self.v[x as usize] = ((self.v[x as usize] as u16 + kk as u16) % 256) as u8;
            },
            Instr::Move { x, y } => {
                self.v[x as usize] = self.v[y as usize];
            },
            Instr::Or { x, y } => {
                self.v[x as usize] = self.v[x as usize] | self.v[y as usize];
            },
            Instr::And { x, y } => {
                self.v[x as usize] = self.v[x as usize] & self.v[y as usize];
            },
            Instr::Xor { x, y } => {
                self.v[x as usize] = self.v[x as usize] ^ self.v[y as usize];
            },
            Instr::Random { x, kk } => {
                self.v[x as usize] = r & kk;
            },
            _ => {},
        }
    }

    /// `8XY4` to `8XY7`, `8XYE`: the arithmetic that sets VF.
    #[verifier::rlimit(40)]
    fn exec_arith(&mut self, timers: &TimerState, ins: Instr, next: u16, r: u8)
        requires
            operands_in_range(ins),
            ins is AddReg || ins is SubReg || ins is ShiftRight || ins is SubReverse
                || ins is ShiftLeft,
        ensures
            final(self).cached_blocks() == old(self).cached_blocks(),
            step_post(machine(old(self)@, *timers), machine(final(self)@, *timers), ins, next, r),
    {
        proof {
            reveal(step);
        }
        self.pc = next;
        match ins {
            Instr::AddReg { x, y } => {
                let s = self.v[x as usize] as u16 + self.v[y as usize] as u16;
                self.v[x as usize] = (s % 256) as u8;
                self.v[15] = if s >= 256 {
                    1
                } else {
                    0
                };
            },
            Instr::SubReg { x, y } => {
                let a = self.v[x as usize];
                let b = self.v[y as usize];
                proof {
                    vstd::arithmetic::div_mod::lemma_mod_add_multiples_vanish(a - b, 256);
                }
                self.v[x as usize] = ((a as u16 + 256 - b as u16) % 256) as u8;
                self.v[15] = if a >= b {
                    1
                } else {
                    0
                };
            },
            Instr::ShiftRight { x } => {
                let a = self.v[x as usize];
                self.v[x as usize] = a / 2;
                self.v[15] = a % 2;
            },
            Instr::SubReverse { x, y } => {
                let a = self.v[x as usize];
                let b = self.v[y as usize];
                proof {
                    vstd::arithmetic::div_mod::lemma_mod_add_multiples_vanish(b - a, 256);
                }
                self.v[x as usize] = ((b as u16 + 256 - a as u16) % 256) as u8;
                self.v[15] = if b >= a {
                    1
                } else {
                    0
                };
            },
            Instr::ShiftLeft { x } => {
                let a = self.v[x as usize];
                self.v[x as usize] = ((a as u16 * 2) % 256) as u8;
                self.v[15] = a / 128;
            },
            _ => {},
        }
    }

    /// `ANNN`, `FX1E`, `FX29` and the timer instructions `FX07`, `FX15` and `FX18`.
    fn exec_index_timer(&mut self, timers: &mut TimerState, ins: Instr, next: u16, r: u8)
        requires
            operands_in_range(ins),
            ins is LoadIndex || ins is AddIndex || ins is FontAddress || ins is LoadDelay
                || ins is SetDelay || ins is SetSound,
        ensures
            final(self).cached_blocks() == old(self).cached_blocks(),
            final(timers).running == old(timers).running,
            step_post(
                    machine(old(self)@, *old(timers)),
                    machine(final(self)@, *final(timers)),
                    ins,
                    next,
                    r,
                ),
    {
        proof {
            reveal(step);
        }
        self.pc = next;
        match ins {
            Instr::LoadIndex { addr } => {
                self.i = addr;
            },
            Instr::AddIndex { x } => {
                self.i = ((self.i as u32 + self.v[x as usize] as u32) % 65536) as u16;
            },
            Instr::FontAddress { x } => {
                self.i = (FONT_START as u16) + 5 * ((self.v[x as usize] % 16) as u16);
            },
            Instr::LoadDelay { x } => {
                self.v[x as usize] = timers.delay_timer;
            },
            Instr::SetDelay { x } => {
                timers.delay_timer = self.v[x as usize];
            },
            Instr::SetSound { x } => {
                timers.sound_timer = self.v[x as usize];
            },
            _ => {},
        }
    }

    /// `FX0A`: waits for a key. With a key down, the lowest pressed key goes
    /// into Vx; with none, Vx is left alone and the program counter goes back
    /// to this instruction, so it runs again.
    fn exec_wait_key(&mut self, timers: &TimerState, ins: Instr, next: u16, r: u8)
        requires
            operands_in_range(ins),
            ins is WaitKey,
        ensures
            final(self).cached_blocks() == old(self).cached_blocks(),
            step_post(machine(old(self)@, *timers), machine(final(self)@, *timers), ins, next, r),
    {
        proof {
            reveal(step);
        }
        self.pc = next;
        if let Instr::WaitKey { x } = ins {
            let mut k: usize = 0;
            while k < 16 && !self.keys[k]
                invariant
                    0 <= k <= 16,
                    self.keys@.len() == 16,
                    first_pressed(self.keys@) == first_pressed_from(self.keys@, k as int),
                decreases 16 - k,
            {
                k = k + 1;
            }
            if k == 16 {
                self.pc = ((next as u32 + 65536 - 2) % 65536) as u16;
            } else {
                self.v[x as usize] = k as u8;
            }
        }
    }

    /// `FX33`, `FX55`, `FX65`.
    fn exec_transfer(&mut self, timers: &TimerState, ins: Instr, next: u16, r: u8)
        requires
            operands_in_range(ins),
            ins is StoreBcd || ins is StoreRegs || ins is LoadRegs,
        ensures
            final(self).cached_blocks() == old(self).cached_blocks(),
            step_post(machine(old(self)@, *timers), machine(final(self)@, *timers), ins, next, r),
    {
        proof {
            reveal(step);
        }
        self.pc = next;
        match ins {
            Instr::StoreBcd { x } => {
                let val = self.v[x as usize];
                let base = self.transfer_base();
                self.mem_write(base, val / 100);
                self.mem_write(base + 1, (val % 100) / 10);
                self.mem_write(base + 2, (val % 100) % 10);
            },
            Instr::StoreRegs { x } => {
                let base = self.transfer_base();
                let ghost c1 = self@;
                let mut reg: usize = 0;
                while reg <= x as usize
                    invariant
                        x < 16,
                        0 <= reg <= x + 1,
                        base == transfer_base(c1.i),
                        base < RAM_SIZE,
                        self@.v == c1.v,
                        self@.i == c1.i,
                        self@.pc == c1.pc,
                        self@.sp == c1.sp,
                        self@.stack == c1.stack,
                        self@.keys == c1.keys,
                        self@.ram.len() == RAM_SIZE,
                        self@.gfx.len() == SCREEN_PIXELS,
                        self.cached_blocks() == old(self).cached_blocks(),
                        forall|a: int|
                            0 <= a < RAM_SIZE ==> #[trigger] self@.ram[a] == (if base <= a < base
                                + reg {
                                c1.v[a - base]
                            } else {
                                c1.ram[a]
                            }),
                        forall|a: int|
                            0 <= a < SCREEN_PIXELS ==> #[trigger] self@.gfx[a] == (if base <= a
                                + RAM_SIZE < base + reg {
                                c1.v[a + RAM_SIZE - base]
                            } else {
                                c1.gfx[a]
                            }),
                    decreases x + 1 - reg,
                {
                    let b = self.v[reg];
                    self.mem_write(base + reg, b);
                    reg = reg + 1;
                }
                proof {
                    let want = store_regs(c1, x as int);
                    assert(self@.ram =~= want.ram);
                    assert(self@.gfx =~= want.gfx);
                }
            },
            Instr::LoadRegs { x } => {
                let base = self.transfer_base();
                let ghost c1 = self@;
                let mut reg: usize = 0;
                while reg <= x as usize
                    invariant
                        x < 16,
                        0 <= reg <= x + 1,
                        base == transfer_base(c1.i),
                        base < RAM_SIZE,
                        self@.ram == c1.ram,
                        self@.gfx == c1.gfx,
                        self@.i == c1.i,
                        self@.pc == c1.pc,
                        self@.sp == c1.sp,
                        self@.stack == c1.stack,
                        self@.keys == c1.keys,
                        self@.v.len() == 16,
                        self.cached_blocks() == old(self).cached_blocks(),
                        forall|q: int|
                            0 <= q < 16 ==> #[trigger] self@.v[q] == (if q < reg {
                                mem_get(c1, base + q)
                            } else {
                                c1.v[q]
                            }),
                    decreases x + 1 - reg,
                {
                    let b = self.mem_read(base + reg);
                    self.v[reg] = b;
                    reg = reg + 1;
                }
                proof {
                    let want = load_regs(c1, x as int);
                    assert(self@.v =~= want.v);
                }
            },
            _ => {},
        }
    }
}

/// What one step promises: the machine the semantics gives.
pub open spec fn step_post(before: Machine, after: Machine, ins: Instr, next: u16, r: u8) -> bool {
    after == step(before, ins, next, r)
}

} // verus!

verus! {

impl CPU {
    /// Decodes the block that starts at `start_pc` from the current RAM:
    /// instructions up to and including the first that ends a block, at most
    /// `MAX_BLOCK_INSTRUCTIONS` of them, and none past the end of RAM.
    fn form_block(&self, start_pc: u16) -> (instrs: Vec<Instr>)
        requires
            self.wf(),
            start_pc + 1 < RAM_SIZE,
        ensures
            instrs@ == block_at(self@.ram, start_pc as int),
            is_block_of(self@.ram, start_pc as int, instrs@),
            block_bounds(start_pc as int, instrs@),
    {
        let start = start_pc as usize;
        let mut pc: usize = start;
        let mut instrs: Vec<Instr> = Vec::new();
        let mut done = false;
        let ghost ram = self@.ram;
        proof {
            self.lemma_shaped();
        }
        while !done && pc + 1 < RAM_SIZE
            invariant
                self@.ram == ram,
                ram.len() == RAM_SIZE,
                start + 1 < RAM_SIZE,
                pc == start + 2 * instrs@.len(),
                instrs@.len() <= MAX_BLOCK_INSTRUCTIONS,
                pc <= RAM_SIZE,
                instrs@.len() == 0 ==> !done,
                forall|k: int|
                    0 <= k < instrs@.len() ==> #[trigger] instrs@[k] == spec_decode(
                        spec_fetch(ram, start + 2 * k),
                    ) && operands_in_range(instrs@[k]),
                forall|k: int|
                    0 <= k < instrs@.len() - 1 ==> !spec_is_terminator(#[trigger] instrs@[k]),
                !done ==> instrs@.len() < MAX_BLOCK_INSTRUCTIONS,
                !done && instrs@.len() > 0 ==> !spec_is_terminator(instrs@.last()),
                done ==> (spec_is_terminator(instrs@.last()) || instrs@.len()
                    == MAX_BLOCK_INSTRUCTIONS),
            decreases RAM_SIZE - pc,
        {
            let op = self.ram[pc] as u16 * 256 + self.ram[pc + 1] as u16;
            let ins = decode(op);
            instrs.push(ins);
            pc = pc + 2;
            if is_terminator(ins) || instrs.len() >= MAX_BLOCK_INSTRUCTIONS {
                done = true;
            }
        }
        proof {
            assert(is_block_of(ram, start as int, instrs@));
            lemma_block_at(ram, start as int, instrs@);
        }
        instrs
    }

    /// Compiles the block that starts at `start_pc` from the current RAM
    /// and caches it under that address. Only a block that clears the
    /// screen at most once compiles.
    fn compile(&mut self, start_pc: u16)
        requires
            old(self).wf(),
            start_pc + 1 < RAM_SIZE,
            clears_at_most_once(block_at(old(self)@.ram, start_pc as int)),
        ensures
            final(self).wf(),
            final(self)@ == old(self)@,
            final(self).cached_blocks() == old(self).cached_blocks().update(
                start_pc as int,
                Some(block_at(old(self)@.ram, start_pc as int)),
            ),
            is_block_of(old(self)@.ram, start_pc as int, block_at(old(self)@.ram, start_pc as int)),
    {
        let instrs = self.form_block(start_pc);
        self.instruction_cache.insert(start_pc as usize, instrs);
    }

    /// Whether the next `execute` can run: the block at `pc & 0x0FFE` is
    /// cached, or the block compiled from the current RAM clears the screen
    /// at most once.
    pub fn next_block_compiles(&self) -> (r: bool)
        requires
            self.wf(),
        ensures
            r == next_block_ok(self.cached_blocks(), self@.ram, block_start(self@.pc) as int),
    {
        let pc = self.pc;
        let p16 = pc & 0x0FFE;
        assert(p16 <= 0x0FFE) by (bit_vector)
            requires
                p16 == pc & 0x0FFE,
        ;
        let p = p16 as usize;
        if self.instruction_cache.is_cached(p) {
            return true;
        }
        let instrs = self.form_block(p16);
        let mut seen = false;
        let mut k: usize = 0;
        while k < instrs.len()
            invariant
                instrs@ == block_at(self@.ram, p as int),
                self.cached_blocks()[p as int] is None,
                p == block_start(self@.pc),
                0 <= k <= instrs@.len(),
                seen <==> exists|i: int| 0 <= i < k && #[trigger] instrs@[i] is ClearScreen,
                clears_at_most_once(instrs@.subrange(0, k as int)),
            decreases instrs@.len() - k,
        {
            let is_clear = match instrs[k] {
                Instr::ClearScreen => true,
                _ => false,
            };
            if is_clear && seen {
                proof {
                    let j = choose|i: int| 0 <= i < k && #[trigger] instrs@[i] is ClearScreen;
                    assert(instrs@[j] is ClearScreen && instrs@[k as int] is ClearScreen);
                    assert(!clears_at_most_once(instrs@));
                }
                return false;
            }
            proof {
                let s2 = instrs@.subrange(0, k + 1);
                assert forall|i: int, j: int|
                    0 <= i < j < s2.len() && (#[trigger] s2[i]) is ClearScreen implies !((
                    #[trigger] s2[j]) is ClearScreen) by {
                    if j < k {
                        assert(s2[i] == instrs@.subrange(0, k as int)[i]);
                        assert(s2[j] == instrs@.subrange(0, k as int)[j]);
                    } else {
                        assert(instrs@[i] is ClearScreen);
                    }
                }
            }
            if is_clear {
                seen = true;
            }
            k = k + 1;
        }
        proof {
            assert(instrs@.subrange(0, instrs@.len() as int) =~= instrs@);
        }
        true
    }

    /// Runs one block: the one that starts at `pc & 0x0FFE`, from the cache,
    /// or compiled from the current RAM and cached first (which takes a block
    /// that clears the screen at most once: see `next_block_compiles`). The
    /// `k`-th instruction of the block takes `entropy[k]` as its random byte.
    #[verifier::rlimit(30)]
    pub fn execute(&mut self, timers: &mut TimerState, entropy: &[u8; MAX_BLOCK_INSTRUCTIONS])
        requires
            old(self).wf(),
            next_block_ok(old(self).cached_blocks(), old(self)@.ram, block_start(old(self)@.pc) as int),
        ensures
            final(self).wf(),
            final(timers).running == old(timers).running,
            ({
                let p = block_start(old(self)@.pc) as int;
                let blk = executed_block(old(self).cached_blocks(), old(self)@.ram, p);
                let m = run_block(machine(old(self)@, *old(timers)), p, blk, entropy@);
                &&& old(self).cached_blocks()[p] is None ==> is_block_of(old(self)@.ram, p, blk)
                &&& final(self).cached_blocks() == old(self).cached_blocks().update(p, Some(blk))
                &&& machine(final(self)@, *final(timers)) == m
            }),
    {
        let pc = self.pc;
        let p16 = pc & 0x0FFE;
        assert(p16 <= 0x0FFE) by (bit_vector)
            requires
                p16 == pc & 0x0FFE,
        ;
        let p = p16 as usize;
        let ghost m0 = machine(self@, *timers);
        let ghost blk = executed_block(self.cached_blocks(), self@.ram, p as int);
        let ghost cache0 = self.cached_blocks();
        if !self.instruction_cache.is_cached(p) {
            self.compile(p16);
        }
        proof {
            if cache0[p as int] is Some {
                assert(cache0.update(p as int, Some(blk)) =~= cache0);
            }
            assert(self.cached_blocks() == cache0.update(p as int, Some(blk)));
            assert(self.cached_blocks()[p as int] == Some(blk));
        }
        let len = self.instruction_cache.block_len(p);
        let mut k: usize = 0;
        while k < len
            invariant
                cache0 == old(self).cached_blocks(),
                m0 == machine(old(self)@, *old(timers)),
                cache_ok(cache0),
                self.wf(),
                blk == executed_block(cache0, old(self)@.ram, p as int),
                cache0[p as int] is None ==> is_block_of(old(self)@.ram, p as int, blk),
                p == block_start(old(self)@.pc),
                self.cached_blocks() == cache0.update(p as int, Some(blk)),
                self.cached_blocks()[p as int] == Some(blk),
                block_bounds(p as int, blk),
                len == blk.len(),
                p + 2 * len <= RAM_SIZE,
                0 <= k <= len,
                timers.running == old(timers).running,
                run_from(machine(self@, *timers), p as int, blk, entropy@, k as int) == run_block(
                    m0,
                    p as int,
                    blk,
                    entropy@,
                ),
            decreases len - k,
        {
            let ins = self.instruction_cache.instr(p, k);
            let next = (p + 2 * k + 2) as u16;
            let ghost mk = machine(self@, *timers);
            assert(ins == blk[k as int]);
            proof {
                lemma_run_from_unfold(mk, p as int, blk, entropy@, k as int);
                assert(next == next_pc(p as int, k as int));
            }
            self.step(timers, ins, next, entropy[k]);
            k = k + 1;
        }
        proof {
            lemma_run_from_done(machine(self@, *timers), p as int, blk, entropy@);
        }
    }
}

/// Whether the block at `p` can run: it is cached, or the block compiled
/// from `ram` clears the screen at most once.
pub open spec fn next_block_ok(cache: Seq<Option<Seq<Instr>>>, ram: Seq<u8>, p: int) -> bool {
    cache[p] is Some || clears_at_most_once(block_at(ram, p))
}

/// The block that runs from `p`: the cached one when there is one, else the
/// one compiled from `ram`.
pub open spec fn executed_block(cache: Seq<Option<Seq<Instr>>>, ram: Seq<u8>, p: int) -> Seq<
    Instr,
> {
    match cache[p] {
        Some(b) => b,
        None => block_at(ram, p),
    }
}

} // verus!


