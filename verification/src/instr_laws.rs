use vstd::prelude::*;
use crate::instr::{Instr, spec_decode};
use crate::semantics::{CpuState, Machine, step, shaped, transfer_base, mem_get, RAM_SIZE, SCREEN_PIXELS};

verus! {

/// `c1` is `c0` with the program counter at `next` and nothing else changed
/// but (possibly) the registers, of which there are still sixteen.
pub open spec fn registers_only(c0: CpuState, c1: CpuState, next: u16) -> bool {
    &&& c1.v.len() == 16
    &&& c1 == CpuState { v: c1.v, pc: next, ..c0 }
}

/// Every register of `c1` other than `x` and VF holds what it held in `c0`.
pub open spec fn others_kept(c0: CpuState, c1: CpuState, x: int) -> bool {
    forall|q: int| 0 <= q < 16 && q != x && q != 15 ==> #[trigger] c1.v[q] == c0.v[q]
}

/// The two timers are as they were.
pub open spec fn timers_kept(m0: Machine, m1: Machine) -> bool {
    m1.delay == m0.delay && m1.sound == m0.sound
}

/// `8XY4`: VF is the carry out of the byte sum (0 or 1); with X other than F,
/// `VF * 256 + Vx` is the full sum. Nothing but Vx, VF and the program counter
/// changes.
pub proof fn lemma_add_reg(m: Machine, x: u8, y: u8, next: u16, r: u8)
    requires
        shaped(m.cpu),
        x < 16,
        y < 16,
    ensures
        ({
            let m1 = step(m, Instr::AddReg { x, y }, next, r);
            let c1 = m1.cpu;
            let vx = m.cpu.v[x as int];
            let vy = m.cpu.v[y as int];
            &&& registers_only(m.cpu, c1, next)
            &&& others_kept(m.cpu, c1, x as int)
            &&& timers_kept(m, m1)
            &&& c1.v[15] <= 1
            &&& (c1.v[15] == 1) == (vx + vy >= 256)
            &&& x != 15 ==> c1.v[15] * 256 + c1.v[x as int] == vx + vy
        }),
{
    reveal(step);
}

/// `8XY5`: VF is 1 exactly when Vx >= Vy (no borrow), else 0; with X other
/// than F, `Vx - 256 * (1 - VF)` is the difference `Vx - Vy`.
pub proof fn lemma_sub_reg(m: Machine, x: u8, y: u8, next: u16, r: u8)
    requires
        shaped(m.cpu),
        x < 16,
        y < 16,
    ensures
        ({
            let m1 = step(m, Instr::SubReg { x, y }, next, r);
            let c1 = m1.cpu;
            let vx = m.cpu.v[x as int];
            let vy = m.cpu.v[y as int];
            &&& registers_only(m.cpu, c1, next)
            &&& others_kept(m.cpu, c1, x as int)
            &&& timers_kept(m, m1)
            &&& c1.v[15] <= 1
            &&& (c1.v[15] == 1) == (vx >= vy)
            &&& x != 15 ==> c1.v[x as int] - 256 * (1 - c1.v[15]) == vx - vy
        }),
{
    reveal(step);
}

/// `8XY7`: VF is 1 exactly when Vy >= Vx (no borrow), else 0; with X other
/// than F, `Vx - 256 * (1 - VF)` is the difference `Vy - Vx`.
pub proof fn lemma_sub_reverse(m: Machine, x: u8, y: u8, next: u16, r: u8)
    requires
        shaped(m.cpu),
        x < 16,
        y < 16,
    ensures
        ({
            let m1 = step(m, Instr::SubReverse { x, y }, next, r);
            let c1 = m1.cpu;
            let vx = m.cpu.v[x as int];
            let vy = m.cpu.v[y as int];
            &&& registers_only(m.cpu, c1, next)
            &&& others_kept(m.cpu, c1, x as int)
            &&& timers_kept(m, m1)
            &&& c1.v[15] <= 1
            &&& (c1.v[15] == 1) == (vy >= vx)
            &&& x != 15 ==> c1.v[x as int] - 256 * (1 - c1.v[15]) == vy - vx
        }),
{
    reveal(step);
}

/// `8XY6`: VF is the bit shifted out, the low bit of Vx; with X other than
/// F, the new Vx doubled plus VF gives the old Vx back.
pub proof fn lemma_shift_right(m: Machine, x: u8, next: u16, r: u8)
    requires
        shaped(m.cpu),
        x < 16,
    ensures
        ({
            let m1 = step(m, Instr::ShiftRight { x }, next, r);
            let c1 = m1.cpu;
            let vx = m.cpu.v[x as int];
            &&& registers_only(m.cpu, c1, next)
            &&& others_kept(m.cpu, c1, x as int)
            &&& timers_kept(m, m1)
            &&& c1.v[15] <= 1
            &&& (c1.v[15] == 1) == (vx % 2 == 1)
            &&& x != 15 ==> 2 * c1.v[x as int] + c1.v[15] == vx
        }),
{
    reveal(step);
}

/// `8XYE`: VF is the bit shifted out, the high bit of Vx; with X other than
/// F, the new Vx plus 256 times VF is twice the old Vx.
pub proof fn lemma_shift_left(m: Machine, x: u8, next: u16, r: u8)
    requires
        shaped(m.cpu),
        x < 16,
    ensures
        ({
            let m1 = step(m, Instr::ShiftLeft { x }, next, r);
            let c1 = m1.cpu;
            let vx = m.cpu.v[x as int];
            &&& registers_only(m.cpu, c1, next)
            &&& others_kept(m.cpu, c1, x as int)
            &&& timers_kept(m, m1)
            &&& c1.v[15] <= 1
            &&& (c1.v[15] == 1) == (vx >= 128)
            &&& x != 15 ==> c1.v[x as int] + 256 * c1.v[15] == 2 * vx
        }),
{
    reveal(step);
}

/// The register instructions without a flag (`6XKK`, `7XKK`, `8XY0` to
/// `8XY3`, `CXKK`) change Vx alone, VF included when X is not F: Vx becomes
/// KK, Vx + KK modulo 256, Vy, Vx | Vy, Vx & Vy, Vx ^ Vy, and the random
/// byte masked by KK.
pub proof fn lemma_register_logic(m: Machine, x: u8, y: u8, kk: u8, next: u16, r: u8)
    requires
        shaped(m.cpu),
        x < 16,
        y < 16,
    ensures
        ({
            let vx = m.cpu.v[x as int];
            let vy = m.cpu.v[y as int];
            let results = seq![
                step(m, Instr::LoadImm { x, kk }, next, r),
                step(m, Instr::AddImm { x, kk }, next, r),
                step(m, Instr::Move { x, y }, next, r),
                step(m, Instr::Or { x, y }, next, r),
                step(m, Instr::And { x, y }, next, r),
                step(m, Instr::Xor { x, y }, next, r),
                step(m, Instr::Random { x, kk }, next, r),
            ];
            &&& forall|j: int|
                0 <= j < 7 ==> {
                    &&& registers_only(m.cpu, (#[trigger] results[j]).cpu, next)
                    &&& timers_kept(m, results[j])
                    &&& forall|q: int|
                        0 <= q < 16 && q != x ==> #[trigger] results[j].cpu.v[q] == m.cpu.v[q]
                }
            &&& results[0].cpu.v[x as int] == kk
            &&& results[1].cpu.v[x as int] == (vx + kk) % 256
            &&& results[2].cpu.v[x as int] == vy
            &&& results[3].cpu.v[x as int] == vx | vy
            &&& results[4].cpu.v[x as int] == vx & vy
            &&& results[5].cpu.v[x as int] == vx ^ vy
            &&& results[6].cpu.v[x as int] == r & kk
        }),
{
    reveal(step);
    let results = seq![
        step(m, Instr::LoadImm { x, kk }, next, r),
        step(m, Instr::AddImm { x, kk }, next, r),
        step(m, Instr::Move { x, y }, next, r),
        step(m, Instr::Or { x, y }, next, r),
        step(m, Instr::And { x, y }, next, r),
        step(m, Instr::Xor { x, y }, next, r),
        step(m, Instr::Random { x, kk }, next, r),
    ];
    assert forall|j: int|
        0 <= j < 7 implies {
            &&& registers_only(m.cpu, (#[trigger] results[j]).cpu, next)
            &&& timers_kept(m, results[j])
            &&& forall|q: int|
                0 <= q < 16 && q != x ==> #[trigger] results[j].cpu.v[q] == m.cpu.v[q]
        } by {
        assert(results[j] == results[j]);
    }
}

/// After a skip from `m` to `m1` on condition `cond`: nothing but the
/// program counter changed, and it passes over the next instruction (to
/// `next + 2`, modulo 2^16) exactly when `cond` holds, else it is `next`.
pub open spec fn skipped_on(m: Machine, m1: Machine, cond: bool, next: u16) -> bool {
    &&& m1.cpu == CpuState { pc: m1.cpu.pc, ..m.cpu }
    &&& timers_kept(m, m1)
    &&& cond ==> m1.cpu.pc == (next + 2) % 65536
    &&& !cond ==> m1.cpu.pc == next
}

/// `3XKK` skips when Vx == KK; it changes nothing but the program counter.
pub proof fn lemma_skip_eq_imm(m: Machine, x: u8, y: u8, kk: u8, next: u16, r: u8)
    requires
        shaped(m.cpu),
        x < 16,
        y < 16,
    ensures
        skipped_on(m, step(m, Instr::SkipEqImm { x, kk }, next, r), m.cpu.v[x as int] == kk, next),
{
    reveal(step);
}

/// `4XKK` skips when Vx != KK; it changes nothing but the program counter.
pub proof fn lemma_skip_ne_imm(m: Machine, x: u8, y: u8, kk: u8, next: u16, r: u8)
    requires
        shaped(m.cpu),
        x < 16,
        y < 16,
    ensures
        skipped_on(m, step(m, Instr::SkipNeImm { x, kk }, next, r), m.cpu.v[x as int] != kk, next),
{
    reveal(step);
}

/// `5XY0` skips when Vx == Vy; it changes nothing but the program counter.
pub proof fn lemma_skip_eq_reg(m: Machine, x: u8, y: u8, kk: u8, next: u16, r: u8)
    requires
        shaped(m.cpu),
        x < 16,
        y < 16,
    ensures
        skipped_on(m, step(m, Instr::SkipEqReg { x, y }, next, r), m.cpu.v[x as int] == m.cpu.v[y as int], next),
{
    reveal(step);
}

/// `9XY0` skips when Vx != Vy; it changes nothing but the program counter.
pub proof fn lemma_skip_ne_reg(m: Machine, x: u8, y: u8, kk: u8, next: u16, r: u8)
    requires
        shaped(m.cpu),
        x < 16,
        y < 16,
    ensures
        skipped_on(m, step(m, Instr::SkipNeReg { x, y }, next, r), m.cpu.v[x as int] != m.cpu.v[y as int], next),
{
    reveal(step);
}

/// `EX9E` skips when key `Vx & 0xF` is down; it changes nothing but the program counter.
pub proof fn lemma_skip_key_pressed(m: Machine, x: u8, y: u8, kk: u8, next: u16, r: u8)
    requires
        shaped(m.cpu),
        x < 16,
        y < 16,
    ensures
        skipped_on(m, step(m, Instr::SkipKeyPressed { x }, next, r), m.cpu.keys[(m.cpu.v[x as int] % 16) as int], next),
{
    reveal(step);
}

/// `EXA1` skips when key `Vx & 0xF` is up; it changes nothing but the program counter.
pub proof fn lemma_skip_key_released(m: Machine, x: u8, y: u8, kk: u8, next: u16, r: u8)
    requires
        shaped(m.cpu),
        x < 16,
        y < 16,
    ensures
        skipped_on(m, step(m, Instr::SkipKeyReleased { x }, next, r), !m.cpu.keys[(m.cpu.v[x as int] % 16) as int], next),
{
    reveal(step);
}

/// `FX33` writes the three decimal digits of Vx, hundreds first, at
/// `I & 0xFFF` and the two bytes after it, and changes nothing else: I, the
/// registers, the stack, the keys, the timers and every other byte of
/// RAM-then-display stay as they were.
pub proof fn lemma_bcd_writes_only_digits(m: Machine, x: u8, next: u16, r: u8)
    requires
        shaped(m.cpu),
        x < 16,
    ensures
        ({
            let m1 = step(m, Instr::StoreBcd { x }, next, r);
            let c1 = m1.cpu;
            let base = transfer_base(m.cpu.i);
            &&& c1.i == m.cpu.i
            &&& c1.v == m.cpu.v
            &&& c1.pc == next
            &&& c1.stack == m.cpu.stack
            &&& c1.sp == m.cpu.sp
            &&& c1.keys == m.cpu.keys
            &&& c1.ram.len() == RAM_SIZE
            &&& c1.gfx.len() == SCREEN_PIXELS
            &&& timers_kept(m, m1)
            &&& mem_get(c1, base) < 10
            &&& mem_get(c1, base + 1) < 10
            &&& mem_get(c1, base + 2) < 10
            &&& 100 * mem_get(c1, base) + 10 * mem_get(c1, base + 1) + mem_get(c1, base + 2)
                == m.cpu.v[x as int]
            &&& forall|a: int|
                0 <= a < RAM_SIZE + SCREEN_PIXELS && !(base <= a <= base + 2) ==> #[trigger] mem_get(
                    c1,
                    a,
                ) == mem_get(m.cpu, a)
        }),
{
    reveal(step);
    let c1 = step(m, Instr::StoreBcd { x }, next, r).cpu;
    let base = transfer_base(m.cpu.i);
    let val = m.cpu.v[x as int];
    assert(base < 4096);
    assert(mem_get(c1, base) == (val / 100) as u8);
    assert(mem_get(c1, base + 1) == ((val % 100) / 10) as u8);
    assert(mem_get(c1, base + 2) == ((val % 100) % 10) as u8);
}

/// The index, jump and timer instructions: `ANNN` sets I to NNN, `FX1E` adds
/// Vx to I modulo 2^16, `1NNN` jumps to NNN, `BNNN` to V0 + NNN modulo 2^16,
/// `FX07` copies the delay timer into Vx, `FX15` and `FX18` copy Vx into the
/// delay and sound timers, and `00E0` turns every pixel off; each changes
/// nothing else but the program counter.
pub proof fn lemma_index_jump_timer(m: Machine, x: u8, addr: u16, next: u16, r: u8)
    requires
        shaped(m.cpu),
        x < 16,
    ensures
        ({
            let vx = m.cpu.v[x as int];
            let load_index = step(m, Instr::LoadIndex { addr }, next, r);
            let add_index = step(m, Instr::AddIndex { x }, next, r);
            let jump = step(m, Instr::Jump { addr }, next, r);
            let jump_offset = step(m, Instr::JumpOffset { addr }, next, r);
            let load_delay = step(m, Instr::LoadDelay { x }, next, r);
            let set_delay = step(m, Instr::SetDelay { x }, next, r);
            let set_sound = step(m, Instr::SetSound { x }, next, r);
            let clear = step(m, Instr::ClearScreen, next, r);
            &&& load_index.cpu == CpuState { i: addr, pc: next, ..m.cpu }
            &&& timers_kept(m, load_index)
            &&& add_index.cpu == CpuState { i: add_index.cpu.i, pc: next, ..m.cpu }
            &&& add_index.cpu.i == (m.cpu.i + vx) % 65536
            &&& timers_kept(m, add_index)
            &&& jump.cpu == CpuState { pc: addr, ..m.cpu }
            &&& timers_kept(m, jump)
            &&& jump_offset.cpu == CpuState { pc: jump_offset.cpu.pc, ..m.cpu }
            &&& jump_offset.cpu.pc == (m.cpu.v[0] + addr) % 65536
            &&& timers_kept(m, jump_offset)
            &&& load_delay.cpu == CpuState { v: m.cpu.v.update(x as int, m.delay), pc: next, ..m.cpu }
            &&& timers_kept(m, load_delay)
            &&& set_delay == Machine { cpu: CpuState { pc: next, ..m.cpu }, delay: vx, sound: m.sound }
            &&& set_sound == Machine { cpu: CpuState { pc: next, ..m.cpu }, delay: m.delay, sound: vx }
            &&& clear.cpu == CpuState { gfx: clear.cpu.gfx, pc: next, ..m.cpu }
            &&& clear.cpu.gfx.len() == SCREEN_PIXELS
            &&& forall|p: int| 0 <= p < SCREEN_PIXELS ==> #[trigger] clear.cpu.gfx[p] == 0
            &&& timers_kept(m, clear)
        }),
{
    reveal(step);
}

/// Decoding reads the fields of an opcode where the CHIP-8 format puts them:
/// the family in the top nibble, a register X in the second nibble, a
/// register Y in the third, N in the low nibble, KK in the low byte and NNN
/// in the low twelve bits.
pub proof fn lemma_decode_fields(op: u16)
    ensures
        ({
            let top = op >> 12u16;
            let x = ((op >> 8u16) & 0xFu16) as u8;
            let y = ((op >> 4u16) & 0xFu16) as u8;
            let n = (op & 0xFu16) as u8;
            let kk = (op & 0xFFu16) as u8;
            let nnn = op & 0xFFFu16;
            &&& top == 0 && kk == 0xE0 ==> spec_decode(op) == Instr::ClearScreen
            &&& top == 0 && kk == 0xEE ==> spec_decode(op) == Instr::Return
            &&& top == 0 && kk != 0xE0 && kk != 0xEE ==> spec_decode(op) == Instr::Unknown
            &&& top == 1 ==> spec_decode(op) == Instr::Jump { addr: nnn }
            &&& top == 2 ==> spec_decode(op) == Instr::Call { addr: nnn }
            &&& top == 3 ==> spec_decode(op) == Instr::SkipEqImm { x, kk }
            &&& top == 4 ==> spec_decode(op) == Instr::SkipNeImm { x, kk }
            &&& top == 5 ==> spec_decode(op) == Instr::SkipEqReg { x, y }
            &&& top == 6 ==> spec_decode(op) == Instr::LoadImm { x, kk }
            &&& top == 7 ==> spec_decode(op) == Instr::AddImm { x, kk }
            &&& top == 8 && n == 0 ==> spec_decode(op) == Instr::Move { x, y }
            &&& top == 8 && n == 1 ==> spec_decode(op) == Instr::Or { x, y }
            &&& top == 8 && n == 2 ==> spec_decode(op) == Instr::And { x, y }
            &&& top == 8 && n == 3 ==> spec_decode(op) == Instr::Xor { x, y }
            &&& top == 8 && n == 4 ==> spec_decode(op) == Instr::AddReg { x, y }
            &&& top == 8 && n == 5 ==> spec_decode(op) == Instr::SubReg { x, y }
            &&& top == 8 && n == 6 ==> spec_decode(op) == Instr::ShiftRight { x }
            &&& top == 8 && n == 7 ==> spec_decode(op) == Instr::SubReverse { x, y }
            &&& top == 8 && n == 0xE ==> spec_decode(op) == Instr::ShiftLeft { x }
            &&& top == 8 && (8 <= n <= 0xD || n == 0xF) ==> spec_decode(op) == Instr::Unknown
            &&& top == 9 ==> spec_decode(op) == Instr::SkipNeReg { x, y }
            &&& top == 0xA ==> spec_decode(op) == Instr::LoadIndex { addr: nnn }
            &&& top == 0xB ==> spec_decode(op) == Instr::JumpOffset { addr: nnn }
            &&& top == 0xC ==> spec_decode(op) == Instr::Random { x, kk }
            &&& top == 0xD ==> spec_decode(op) == Instr::Draw { x, y, n }
            &&& top == 0xE && kk == 0x9E ==> spec_decode(op) == Instr::SkipKeyPressed { x }
            &&& top == 0xE && kk == 0xA1 ==> spec_decode(op) == Instr::SkipKeyReleased { x }
            &&& top == 0xE && kk != 0x9E && kk != 0xA1 ==> spec_decode(op) == Instr::Unknown
            &&& top == 0xF && kk == 0x07 ==> spec_decode(op) == Instr::LoadDelay { x }
            &&& top == 0xF && kk == 0x0A ==> spec_decode(op) == Instr::WaitKey { x }
            &&& top == 0xF && kk == 0x15 ==> spec_decode(op) == Instr::SetDelay { x }
            &&& top == 0xF && kk == 0x18 ==> spec_decode(op) == Instr::SetSound { x }
            &&& top == 0xF && kk == 0x1E ==> spec_decode(op) == Instr::AddIndex { x }
            &&& top == 0xF && kk == 0x29 ==> spec_decode(op) == Instr::FontAddress { x }
            &&& top == 0xF && kk == 0x33 ==> spec_decode(op) == Instr::StoreBcd { x }
            &&& top == 0xF && kk == 0x55 ==> spec_decode(op) == Instr::StoreRegs { x }
            &&& top == 0xF && kk == 0x65 ==> spec_decode(op) == Instr::LoadRegs { x }
        }),
{
    assert(op >> 12u16 == op / 4096) by (bit_vector);
    assert((op >> 8u16) & 0xFu16 == (op / 256) % 16) by (bit_vector);
    assert((op >> 4u16) & 0xFu16 == (op / 16) % 16) by (bit_vector);
    assert(op & 0xFu16 == op % 16) by (bit_vector);
    assert(op & 0xFFu16 == op % 256) by (bit_vector);
    assert(op & 0xFFFu16 == op % 4096) by (bit_vector);
}

} // verus!
