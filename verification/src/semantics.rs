use vstd::prelude::*;
use crate::instr::{Instr, operands_in_range, spec_decode, spec_fetch, spec_is_terminator};

verus! {

/// Bytes of RAM.
pub const RAM_SIZE: usize = 0x1000;

/// Pixels of the 64 x 32 display, one byte each, row by row.
pub const SCREEN_PIXELS: usize = 2048;

/// Width of the display in pixels.
pub const SCREEN_WIDTH: usize = 64;

/// Height of the display in pixels.
pub const SCREEN_HEIGHT: usize = 32;

/// Where the font glyphs sit in RAM.
pub const FONT_START: usize = 0x050;

/// Where a program is loaded and where execution starts.
pub const PROGRAM_START: usize = 0x200;

/// The most instructions that one compiled block holds.
pub const MAX_BLOCK_INSTRUCTIONS: usize = 512;

/// The CPU as the instructions see it.
#[verifier::ext_equal]
pub struct CpuState {
    pub v: Seq<u8>,
    pub i: u16,
    pub pc: u16,
    pub stack: Seq<u16>,
    pub sp: u8,
    pub ram: Seq<u8>,
    pub gfx: Seq<u8>,
    pub keys: Seq<bool>,
}

/// The CPU together with the two timers.
#[verifier::ext_equal]
pub struct Machine {
    pub cpu: CpuState,
    pub delay: u8,
    pub sound: u8,
}

/// The shapes of the register file, stack, memory, display and keypad.
pub open spec fn shaped(c: CpuState) -> bool {
    &&& c.v.len() == 16
    &&& c.stack.len() == 16
    &&& c.ram.len() == RAM_SIZE
    &&& c.gfx.len() == SCREEN_PIXELS
    &&& c.keys.len() == 16
}

/// Addition on 16-bit words, modulo 2^16.
pub open spec fn wrap16(a: int) -> u16 {
    (a % 65536) as u16
}

/// Addition on bytes, modulo 2^8.
pub open spec fn wrap8(a: int) -> u8 {
    (a % 256) as u8
}

/// RAM followed by the display, as one run of bytes: the block transfer
/// instructions address it from `I & 0xFFF` onwards, so a transfer that runs
/// past the end of RAM goes on into the display.
pub open spec fn mem_get(c: CpuState, a: int) -> u8 {
    if a < RAM_SIZE {
        c.ram[a]
    } else {
        c.gfx[a - RAM_SIZE]
    }
}

/// Writes `b` at `a` in RAM-then-display.
pub open spec fn mem_set(c: CpuState, a: int, b: u8) -> CpuState {
    if a < RAM_SIZE {
        CpuState { ram: c.ram.update(a, b), ..c }
    } else {
        CpuState { gfx: c.gfx.update(a - RAM_SIZE, b), ..c }
    }
}

/// The address in RAM-then-display that `FX33`, `FX55` and `FX65` start at.
pub open spec fn transfer_base(i: u16) -> int {
    (i % 4096) as int
}

/// The display index of the `k`-th sprite pixel, rows of eight taken top to
/// bottom, each left to right; both coordinates wrap around the screen.
pub open spec fn pixel_index(vx: u8, vy: u8, k: int) -> int {
    ((vy + k / 8) % 32) * 64 + (vx + k % 8) % 64
}

/// Whether the `k`-th sprite pixel is set: bit `7 - k % 8` of the sprite row
/// `k / 8`, read from `I + k / 8` (wrapped to RAM).
pub open spec fn sprite_bit(ram: Seq<u8>, i: u16, k: int) -> bool {
    let row = ram[(i + k / 8) % 4096];
    (row >> ((7 - k % 8) as u8)) & 1u8 == 1u8
}

/// How many of the first `k` sprite pixels are set and land on display
/// index `idx`: how often that pixel gets flipped.
pub open spec fn flips(ram: Seq<u8>, i: u16, vx: u8, vy: u8, idx: int, k: nat) -> nat
    decreases k,
{
    if k == 0 {
        0
    } else {
        let j = (k - 1) as int;
        flips(ram, i, vx, vy, idx, (k - 1) as nat) + (if pixel_index(vx, vy, j) == idx
            && sprite_bit(ram, i, j) {
            1nat
        } else {
            0nat
        })
    }
}

/// A byte flipped `t` times with XOR 1.
pub open spec fn flipped(o: u8, t: nat) -> u8 {
    if t % 2 == 0 {
        o
    } else {
        o ^ 1u8
    }
}

/// Whether flipping a byte `t` times ever found it at 1 just before a flip.
pub open spec fn collided(o: u8, t: nat) -> bool {
    (o == 1 && t >= 1) || (o == 0 && t >= 2)
}

/// Whether some pixel of the display collides when an `n`-row sprite is drawn.
pub open spec fn any_collision(c: CpuState, vx: u8, vy: u8, n: u8) -> bool {
    exists|idx: int|
        0 <= idx < SCREEN_PIXELS && #[trigger] collided(
            c.gfx[idx],
            flips(c.ram, c.i, vx, vy, idx, (8 * n) as nat),
        )
}

/// `DXYN` and `draw_sprite`: the `n`-row sprite at `I` is XORed onto the
/// display at `(vx, vy)`; VF is 1 when a set pixel met a lit one, else 0.
pub open spec fn draw(c: CpuState, vx: u8, vy: u8, n: u8) -> CpuState {
    CpuState {
        gfx: Seq::new(
            SCREEN_PIXELS as nat,
            |idx: int| flipped(c.gfx[idx], flips(c.ram, c.i, vx, vy, idx, (8 * n) as nat)),
        ),
        v: c.v.update(
            15,
            if any_collision(c, vx, vy, n) {
                1u8
            } else {
                0u8
            },
        ),
        ..c
    }
}

/// The lowest pressed key at or after `k`, or 16 when there is none.
pub open spec fn first_pressed_from(keys: Seq<bool>, k: int) -> int
    decreases 16 - k,
{
    if k >= 16 {
        16
    } else if keys[k] {
        k
    } else {
        first_pressed_from(keys, k + 1)
    }
}

/// The lowest pressed key, or 16 when there is none.
pub open spec fn first_pressed(keys: Seq<bool>) -> int {
    first_pressed_from(keys, 0)
}

/// The skip instructions: past the next instruction when `cond` holds.
pub open spec fn skip_if(next: u16, cond: bool) -> u16 {
    if cond {
        wrap16(next + 2)
    } else {
        next
    }
}

/// `FX55`: registers `V0..=Vx` stored from the transfer base on.
pub open spec fn store_regs(c: CpuState, x: int) -> CpuState {
    let base = transfer_base(c.i);
    CpuState {
        ram: Seq::new(
            RAM_SIZE as nat,
            |a: int|
                if base <= a <= base + x {
                    c.v[a - base]
                } else {
                    c.ram[a]
                },
        ),
        gfx: Seq::new(
            SCREEN_PIXELS as nat,
            |a: int|
                if base <= a + RAM_SIZE <= base + x {
                    c.v[a + RAM_SIZE - base]
                } else {
                    c.gfx[a]
                },
        ),
        ..c
    }
}

/// `FX65`: registers `V0..=Vx` loaded from the transfer base on.
pub open spec fn load_regs(c: CpuState, x: int) -> CpuState {
    let base = transfer_base(c.i);
    CpuState {
        v: Seq::new(
            16,
            |r: int|
                if r <= x {
                    mem_get(c, base + r)
                } else {
                    c.v[r]
                },
        ),
        ..c
    }
}

/// `FX33`: the hundreds, tens and ones digits of `Vx` at the transfer base.
pub open spec fn store_bcd(c: CpuState, val: u8) -> CpuState {
    let base = transfer_base(c.i);
    mem_set(
        mem_set(mem_set(c, base, (val / 100) as u8), base + 1, ((val % 100) / 10) as u8),
        base + 2,
        ((val % 100) % 10) as u8,
    )
}

/// Stack slot `s` (for any stack-pointer value 0..256) as `2NNN` and `00EE`
/// address it: a 16-bit little-endian word at 2s bytes past the start of the
/// stack array. The CPU's fields lie in memory in declaration order, so past
/// the sixteen stack words come the stack-pointer byte and then RAM: slot 16
/// is the stack pointer (low byte) and RAM byte 0 (high byte), and slot
/// `s > 16` is RAM bytes `2s - 33` (low) and `2s - 32` (high).
pub open spec fn slot_get(c: CpuState, s: int) -> u16 {
    if s < 16 {
        c.stack[s]
    } else if s == 16 {
        (c.sp + 256 * c.ram[0]) as u16
    } else {
        (c.ram[2 * s - 33] + 256 * c.ram[2 * s - 32]) as u16
    }
}

/// Writes stack slot `s` (see `slot_get`).
pub open spec fn slot_set(c: CpuState, s: int, w: u16) -> CpuState {
    if s < 16 {
        CpuState { stack: c.stack.update(s, w), ..c }
    } else if s == 16 {
        CpuState { sp: (w % 256) as u8, ram: c.ram.update(0, (w / 256) as u8), ..c }
    } else {
        CpuState {
            ram: c.ram.update(2 * s - 33, (w % 256) as u8).update(2 * s - 32, (w / 256) as u8),
            ..c
        }
    }
}

/// A machine with a new CPU state.
pub open spec fn with_cpu(m: Machine, c: CpuState) -> Machine {
    Machine { cpu: c, ..m }
}

/// One instruction. `next` is the address after it, which the program
/// counter holds before the instruction acts; `r` is the random byte that
/// `CXKK` masks.
pub open spec fn step(m: Machine, ins: Instr, next: u16, r: u8) -> Machine {
    let c = CpuState { pc: next, ..m.cpu };
    let v = c.v;
    match ins {
        Instr::ClearScreen => with_cpu(m, CpuState { gfx: Seq::new(SCREEN_PIXELS as nat, |_j: int| 0u8), ..c }),
        Instr::Return => {
            let sp = wrap8(c.sp - 1);
            let c1 = CpuState { sp, ..c };
            with_cpu(m, CpuState { pc: slot_get(c1, sp as int), ..c1 })
        },
        Instr::Jump { addr } => with_cpu(m, CpuState { pc: addr, ..c }),
        Instr::Call { addr } => {
            let c1 = slot_set(c, c.sp as int, next);
            with_cpu(m, CpuState { sp: wrap8(c1.sp + 1), pc: addr, ..c1 })
        },
        Instr::SkipEqImm { x, kk } => with_cpu(m, CpuState { pc: skip_if(next, v[x as int] == kk), ..c }),
        Instr::SkipNeImm { x, kk } => with_cpu(m, CpuState { pc: skip_if(next, v[x as int] != kk), ..c }),
        Instr::SkipEqReg { x, y } => with_cpu(m, CpuState { pc: skip_if(next, v[x as int] == v[y as int]), ..c }),
        Instr::SkipNeReg { x, y } => with_cpu(m, CpuState { pc: skip_if(next, v[x as int] != v[y as int]), ..c }),
        Instr::LoadImm { x, kk } => with_cpu(m, CpuState { v: v.update(x as int, kk), ..c }),
        Instr::AddImm { x, kk } => with_cpu(m, CpuState { v: v.update(x as int, wrap8(v[x as int] + kk)), ..c }),
        Instr::Move { x, y } => with_cpu(m, CpuState { v: v.update(x as int, v[y as int]), ..c }),
        Instr::Or { x, y } => with_cpu(m, CpuState { v: v.update(x as int, v[x as int] | v[y as int]), ..c }),
        Instr::And { x, y } => with_cpu(m, CpuState { v: v.update(x as int, v[x as int] & v[y as int]), ..c }),
        Instr::Xor { x, y } => with_cpu(m, CpuState { v: v.update(x as int, v[x as int] ^ v[y as int]), ..c }),
        Instr::AddReg { x, y } => {
            let s = v[x as int] + v[y as int];
            with_cpu(
                    m,
                    CpuState {
                        v: v.update(x as int, wrap8(s)).update(
                            15,
                            if s >= 256 {
                                1u8
                            } else {
                                0u8
                            },
                        ),
                        ..c
                    },
                )
        },
        Instr::SubReg { x, y } => with_cpu(
                m,
                CpuState {
                    v: v.update(x as int, wrap8(v[x as int] - v[y as int])).update(
                        15,
                        if v[x as int] >= v[y as int] {
                            1u8
                        } else {
                            0u8
                        },
                    ),
                    ..c
                },
            ),
        Instr::ShiftRight { x } => with_cpu(
                m,
                CpuState {
                    v: v.update(x as int, (v[x as int] / 2) as u8).update(
                        15,
                        (v[x as int] % 2) as u8,
                    ),
                    ..c
                },
            ),
        Instr::SubReverse { x, y } => with_cpu(
                m,
                CpuState {
                    v: v.update(x as int, wrap8(v[y as int] - v[x as int])).update(
                        15,
                        if v[y as int] >= v[x as int] {
                            1u8
                        } else {
                            0u8
                        },
                    ),
                    ..c
                },
            ),
        Instr::ShiftLeft { x } => with_cpu(
                m,
                CpuState {
                    v: v.update(x as int, wrap8(v[x as int] * 2)).update(
                        15,
                        (v[x as int] / 128) as u8,
                    ),
                    ..c
                },
            ),
        Instr::LoadIndex { addr } => with_cpu(m, CpuState { i: addr, ..c }),
        Instr::JumpOffset { addr } => with_cpu(m, CpuState { pc: wrap16(v[0] + addr), ..c }),
        Instr::Random { x, kk } => with_cpu(m, CpuState { v: v.update(x as int, r & kk), ..c }),
        Instr::Draw { x, y, n } => with_cpu(m, draw(c, v[x as int], v[y as int], n)),
        Instr::SkipKeyPressed { x } => with_cpu(m, CpuState { pc: skip_if(next, c.keys[(v[x as int] % 16) as int]), ..c }),
        Instr::SkipKeyReleased { x } => with_cpu(m, CpuState { pc: skip_if(next, !c.keys[(v[x as int] % 16) as int]), ..c }),
        Instr::LoadDelay { x } => with_cpu(m, CpuState { v: v.update(x as int, m.delay), ..c }),
        Instr::WaitKey { x } => {
            let k = first_pressed(c.keys);
            if k == 16 {
                with_cpu(m, CpuState { pc: wrap16(next - 2), ..c })
            } else {
                with_cpu(m, CpuState { v: v.update(x as int, k as u8), ..c })
            }
        },
        Instr::SetDelay { x } => Machine { cpu: c, delay: v[x as int], sound: m.sound },
        Instr::SetSound { x } => Machine { cpu: c, delay: m.delay, sound: v[x as int] },
        Instr::AddIndex { x } => with_cpu(m, CpuState { i: wrap16(c.i + v[x as int]), ..c }),
        Instr::FontAddress { x } => with_cpu(m, CpuState { i: (FONT_START + 5 * (v[x as int] % 16)) as u16, ..c }),
        Instr::StoreBcd { x } => with_cpu(m, store_bcd(c, v[x as int])),
        Instr::StoreRegs { x } => with_cpu(m, store_regs(c, x as int)),
        Instr::LoadRegs { x } => with_cpu(m, load_regs(c, x as int)),
        Instr::Unknown => with_cpu(m, c),
    }
}

/// The address after the `k`-th instruction of a block that starts at `start`.
pub open spec fn next_pc(start: int, k: int) -> u16 {
    wrap16(start + 2 * k + 2)
}

/// Runs instructions `k..` of a block; the `k`-th instruction gets random
/// byte `entropy[k]`.
#[verifier::opaque]
pub open spec fn run_from(
    m: Machine,
    start: int,
    instrs: Seq<Instr>,
    entropy: Seq<u8>,
    k: int,
) -> Machine
    decreases instrs.len() - k,
{
    if k < 0 || k >= instrs.len() {
        m
    } else {
        run_from(step(m, instrs[k], next_pc(start, k), entropy[k]), start, instrs, entropy, k + 1)
    }
}

/// A whole block.
pub open spec fn run_block(m: Machine, start: int, instrs: Seq<Instr>, entropy: Seq<u8>) -> Machine {
    run_from(m, start, instrs, entropy, 0)
}

/// `instrs` is the block that starts at `start` in `ram`: the instructions
/// decoded from consecutive words, up to and including the first one that
/// ends a block, at most 512 of them, and stopping where no whole word is
/// left in RAM.
pub open spec fn is_block_of(ram: Seq<u8>, start: int, instrs: Seq<Instr>) -> bool {
    &&& 1 <= instrs.len() <= MAX_BLOCK_INSTRUCTIONS
    &&& 0 <= start
    &&& start + 2 * instrs.len() <= RAM_SIZE
    &&& forall|k: int|
        0 <= k < instrs.len() ==> #[trigger] instrs[k] == spec_decode(
            spec_fetch(ram, start + 2 * k),
        )
    &&& forall|k: int| 0 <= k < instrs.len() - 1 ==> !spec_is_terminator(#[trigger] instrs[k])
    &&& (spec_is_terminator(instrs.last()) || instrs.len() == MAX_BLOCK_INSTRUCTIONS || start + 2
        * instrs.len() + 1 >= RAM_SIZE)
}

/// Whether `00E0` occurs at most once in a block. A block is compiled with
/// one named loop for clearing the screen, so a second `00E0` in the same
/// block does not compile.
pub open spec fn clears_at_most_once(blk: Seq<Instr>) -> bool {
    forall|i: int, j: int|
        0 <= i < j < blk.len() && (#[trigger] blk[i]) is ClearScreen ==> !((#[trigger] blk[j]) is ClearScreen)
}

/// What a cached block at `start` satisfies whatever RAM it was taken from.
pub open spec fn block_bounds(start: int, instrs: Seq<Instr>) -> bool {
    &&& 1 <= instrs.len() <= MAX_BLOCK_INSTRUCTIONS
    &&& start + 2 * instrs.len() <= RAM_SIZE
    &&& forall|k: int| 0 <= k < instrs.len() ==> operands_in_range(#[trigger] instrs[k])
}

/// A block cache: one slot per RAM address, each empty or holding a block
/// that starts there.
pub open spec fn cache_ok(cache: Seq<Option<Seq<Instr>>>) -> bool {
    &&& cache.len() == RAM_SIZE
    &&& forall|p: int|
        0 <= p < RAM_SIZE && (#[trigger] cache[p]) is Some ==> block_bounds(p, cache[p]->0)
}

/// Where execution of a block starts for a program counter: `pc & 0x0FFE`.
pub open spec fn block_start(pc: u16) -> u16 {
    pc & 0x0FFEu16
}

} // verus!

verus! {

/// One more sprite pixel adds one flip to the pixel it lands on, when set.
pub proof fn lemma_flips_next(ram: Seq<u8>, i: u16, vx: u8, vy: u8, idx: int, k: nat)
    ensures
        flips(ram, i, vx, vy, idx, k + 1) == flips(ram, i, vx, vy, idx, k) + (if pixel_index(
            vx,
            vy,
            k as int,
        ) == idx && sprite_bit(ram, i, k as int) {
            1nat
        } else {
            0nat
        }),
{
}

/// One more flip is one more XOR with 1.
pub proof fn lemma_flipped_next(o: u8, t: nat)
    ensures
        flipped(o, t + 1) == flipped(o, t) ^ 1u8,
{
    assert((o ^ 1u8) ^ 1u8 == o) by (bit_vector);
}

/// A flip collides exactly when the byte it flips is 1.
pub proof fn lemma_collided_next(o: u8, t: nat)
    ensures
        collided(o, t + 1) == (collided(o, t) || flipped(o, t) == 1),
{
    assert((o ^ 1u8 == 1u8) == (o == 0u8)) by (bit_vector);
}

/// Sprite pixels stay on the display.
pub proof fn lemma_pixel_index_bounds(vx: u8, vy: u8, k: int)
    ensures
        0 <= pixel_index(vx, vy, k) < SCREEN_PIXELS,
{
    let r = (vy + k / 8) % 32;
    let c = (vx + k % 8) % 64;
    assert(0 <= r < 32 && 0 <= c < 64);
    assert(0 <= r * 64 + c < 2048) by (nonlinear_arith)
        requires
            0 <= r < 32,
            0 <= c < 64,
    ;
}

} // verus!

verus! {

/// The block that starts at `start` in `ram`.
pub open spec fn block_at(ram: Seq<u8>, start: int) -> Seq<Instr> {
    choose|b: Seq<Instr>| is_block_of(ram, start, b)
}

/// There is only one block at an address.
pub proof fn lemma_block_unique(ram: Seq<u8>, start: int, a: Seq<Instr>, b: Seq<Instr>)
    requires
        is_block_of(ram, start, a),
        is_block_of(ram, start, b),
    ensures
        a == b,
{
    if a.len() < b.len() {
        let k = a.len() - 1;
        assert(a[k] == b[k]);
        assert(!spec_is_terminator(b[k]));
    } else if b.len() < a.len() {
        let k = b.len() - 1;
        assert(a[k] == b[k]);
        assert(!spec_is_terminator(a[k]));
    }
    assert(a.len() == b.len());
    assert forall|k: int| 0 <= k < a.len() implies a[k] == b[k] by {}
    assert(a =~= b);
}

/// Once some block is known at an address, `block_at` is that block.
pub proof fn lemma_block_at(ram: Seq<u8>, start: int, b: Seq<Instr>)
    requires
        is_block_of(ram, start, b),
    ensures
        block_at(ram, start) == b,
{
    lemma_block_unique(ram, start, block_at(ram, start), b);
}

} // verus!

verus! {

/// Running from the `k`-th instruction is one step, then the rest.
pub proof fn lemma_run_from_unfold(
    m: Machine,
    start: int,
    instrs: Seq<Instr>,
    entropy: Seq<u8>,
    k: int,
)
    requires
        0 <= k < instrs.len(),
    ensures
        run_from(m, start, instrs, entropy, k) == run_from(
            step(m, instrs[k], next_pc(start, k), entropy[k]),
            start,
            instrs,
            entropy,
            k + 1,
        ),
{
    reveal(run_from);
}

/// Past the last instruction nothing more runs.
pub proof fn lemma_run_from_done(m: Machine, start: int, instrs: Seq<Instr>, entropy: Seq<u8>)
    ensures
        run_from(m, start, instrs, entropy, instrs.len() as int) == m,
{
    reveal(run_from);
}

} // verus!
