use vstd::prelude::*;
use crate::instr::{Instr, operands_in_range, spec_is_terminator, spec_decode, spec_fetch};
use crate::cpu::{executed_block, next_block_ok};
use crate::emulator::{FONT_SET, FONTSIZE};
use crate::semantics::{
    first_pressed, first_pressed_from, RAM_SIZE, FONT_START, block_start, block_at, run_block, is_block_of,
    lemma_block_at, lemma_run_from_unfold, lemma_run_from_done, next_pc,
    CpuState, Machine, draw, flips, flipped, collided, any_collision, pixel_index, sprite_bit,
    step, shaped, mem_get, mem_set, transfer_base, SCREEN_PIXELS, lemma_pixel_index_bounds,
    clears_at_most_once,
};
use crate::input::{keymap, keys_after, InputEvent, HostKey};

verus! {

/// Flipping a byte the same number of times twice gives it back.
proof fn lemma_flipped_twice(o: u8, t: nat)
    ensures
        flipped(flipped(o, t), t) == o,
{
    assert((o ^ 1u8) ^ 1u8 == o) by (bit_vector);
}

/// Drawing the same sprite twice at the same place leaves the display as it
/// was, and drawing changes neither RAM nor I.
pub proof fn lemma_draw_twice_restores(c: CpuState, vx: u8, vy: u8, n: u8)
    requires
        shaped(c),
    ensures
        draw(c, vx, vy, n).ram == c.ram,
        draw(c, vx, vy, n).i == c.i,
        draw(draw(c, vx, vy, n), vx, vy, n).gfx == c.gfx,
{
    let c1 = draw(c, vx, vy, n);
    let c2 = draw(c1, vx, vy, n);
    assert forall|idx: int| 0 <= idx < SCREEN_PIXELS implies #[trigger] c2.gfx[idx] == c.gfx[idx] by {
        lemma_flipped_twice(c.gfx[idx], flips(c.ram, c.i, vx, vy, idx, (8 * n) as nat));
    }
    assert(c2.gfx =~= c.gfx);
}

/// Two sprite pixels of a sprite no taller than the display never land on
/// the same display pixel.
proof fn lemma_pixel_index_injective(vx: u8, vy: u8, j1: int, j2: int)
    requires
        0 <= j1 < 256,
        0 <= j2 < 256,
        pixel_index(vx, vy, j1) == pixel_index(vx, vy, j2),
    ensures
        j1 == j2,
{
    let r1 = j1 / 8;
    let r2 = j2 / 8;
    let c1 = j1 % 8;
    let c2 = j2 % 8;
    let y1 = (vy + r1) % 32;
    let y2 = (vy + r2) % 32;
    let x1 = (vx + c1) % 64;
    let x2 = (vx + c2) % 64;
    assert(0 <= r1 < 32 && 0 <= r2 < 32);
    assert(y1 == y2 && x1 == x2) by (nonlinear_arith)
        requires
            y1 * 64 + x1 == y2 * 64 + x2,
            0 <= x1 < 64,
            0 <= x2 < 64,
            0 <= y1,
            0 <= y2,
    ;
    assert(r1 == r2);
    assert(c1 == c2);
    assert(j1 == 8 * r1 + c1 && j2 == 8 * r2 + c2);
}

/// With a count of flips of at least one there is a sprite pixel that
/// caused it.
proof fn lemma_flips_witness(ram: Seq<u8>, i: u16, vx: u8, vy: u8, idx: int, k: nat)
    requires
        flips(ram, i, vx, vy, idx, k) >= 1,
    ensures
        exists|j: int|
            0 <= j < k && #[trigger] pixel_index(vx, vy, j) == idx && sprite_bit(ram, i, j),
    decreases k,
{
    let j = (k - 1) as int;
    if pixel_index(vx, vy, j) == idx && sprite_bit(ram, i, j) {
    } else {
        lemma_flips_witness(ram, i, vx, vy, idx, (k - 1) as nat);
    }
}

/// A sprite no taller than the display flips each pixel at most once.
proof fn lemma_flips_at_most_once(ram: Seq<u8>, i: u16, vx: u8, vy: u8, idx: int, k: nat)
    requires
        k <= 256,
    ensures
        flips(ram, i, vx, vy, idx, k) <= 1,
    decreases k,
{
    if k > 0 {
        let j = (k - 1) as int;
        lemma_flips_at_most_once(ram, i, vx, vy, idx, (k - 1) as nat);
        if pixel_index(vx, vy, j) == idx && sprite_bit(ram, i, j) && flips(
            ram,
            i,
            vx,
            vy,
            idx,
            (k - 1) as nat,
        ) >= 1 {
            lemma_flips_witness(ram, i, vx, vy, idx, (k - 1) as nat);
            let w = choose|w: int|
                0 <= w < k - 1 && #[trigger] pixel_index(vx, vy, w) == idx && sprite_bit(
                    ram,
                    i,
                    w,
                );
            lemma_pixel_index_injective(vx, vy, w, j);
        }
    }
}

/// Whether every pixel of the display is 0 or 1.
pub open spec fn binary_display(gfx: Seq<u8>) -> bool {
    forall|idx: int| 0 <= idx < gfx.len() ==> #[trigger] gfx[idx] == 0 || gfx[idx] == 1
}

/// On a display of zeros and ones, drawing a sprite of at most 32 rows
/// keeps the display zeros and ones, and sets VF to 1 exactly when some pixel
/// that was lit went dark (and to 0 otherwise).
pub proof fn lemma_collision_iff_pixel_erased(c: CpuState, vx: u8, vy: u8, n: u8)
    requires
        shaped(c),
        binary_display(c.gfx),
        n <= 32,
    ensures
        binary_display(draw(c, vx, vy, n).gfx),
        draw(c, vx, vy, n).v[15] == 0 || draw(c, vx, vy, n).v[15] == 1,
        (draw(c, vx, vy, n).v[15] == 1) == (exists|idx: int|
            0 <= idx < SCREEN_PIXELS && c.gfx[idx] == 1 && #[trigger] draw(c, vx, vy, n).gfx[idx]
                == 0),
{
    let d = draw(c, vx, vy, n);
    let k = (8 * n) as nat;
    assert forall|idx: int| 0 <= idx < SCREEN_PIXELS implies {
        &&& (#[trigger] d.gfx[idx] == 0 || d.gfx[idx] == 1)
        &&& collided(c.gfx[idx], flips(c.ram, c.i, vx, vy, idx, k)) == (c.gfx[idx] == 1
            && d.gfx[idx] == 0)
    } by {
        let o = c.gfx[idx];
        lemma_flips_at_most_once(c.ram, c.i, vx, vy, idx, k);
        assert((o == 0u8 || o == 1u8) ==> ((o ^ 1u8) == 0u8 || (o ^ 1u8) == 1u8)) by (bit_vector);
        assert((o ^ 1u8 == 0u8) == (o == 1u8)) by (bit_vector);
    }
    if d.v[15] == 1 {
        assert(any_collision(c, vx, vy, n));
        let w = choose|idx: int|
            0 <= idx < SCREEN_PIXELS && #[trigger] collided(
                c.gfx[idx],
                flips(c.ram, c.i, vx, vy, idx, k),
            );
        assert(d.gfx[w] == 0);
    }
    if exists|idx: int| 0 <= idx < SCREEN_PIXELS && c.gfx[idx] == 1 && #[trigger] d.gfx[idx] == 0 {
        let w = choose|idx: int|
            0 <= idx < SCREEN_PIXELS && c.gfx[idx] == 1 && #[trigger] d.gfx[idx] == 0;
        assert(collided(c.gfx[w], flips(c.ram, c.i, vx, vy, w, k)));
        assert(any_collision(c, vx, vy, n));
    }
}

/// `2NNN` leaves the address after it in the stack slot at the stack
/// pointer, moves the stack pointer up and jumps.
pub proof fn lemma_call_step(m: Machine, addr: u16, next: u16, r: u8)
    requires
        shaped(m.cpu),
        m.cpu.sp < 16,
    ensures
        step(m, Instr::Call { addr }, next, r) == (Machine {
            cpu: CpuState {
                stack: m.cpu.stack.update(m.cpu.sp as int, next),
                sp: (m.cpu.sp + 1) as u8,
                pc: addr,
                ..m.cpu
            },
            ..m
        }),
{
    reveal(step);
}

/// `00EE` with the stack pointer in 1..=16 moves it down and jumps to the
/// address in that slot.
#[verifier::rlimit(30)]
pub proof fn lemma_return_step(m: Machine, next: u16, r: u8)
    requires
        shaped(m.cpu),
        1 <= m.cpu.sp <= 16,
    ensures
        step(m, Instr::Return, next, r) == (Machine {
            cpu: CpuState {
                sp: (m.cpu.sp - 1) as u8,
                pc: m.cpu.stack[m.cpu.sp - 1],
                ..m.cpu
            },
            ..m
        }),
{
    reveal(step);
}

/// A call followed by a return comes back to the instruction after the call
/// with the stack pointer as it was; the return address stays in its stack
/// slot and nothing else changes.
pub proof fn lemma_call_then_return(
    m: Machine,
    addr: u16,
    next: u16,
    r1: u8,
    next2: u16,
    r2: u8,
)
    requires
        shaped(m.cpu),
        m.cpu.sp < 16,
    ensures
        step(m, Instr::Call { addr }, next, r1).cpu.pc == addr,
        step(step(m, Instr::Call { addr }, next, r1), Instr::Return, next2, r2) == (Machine {
            cpu: CpuState {
                stack: m.cpu.stack.update(m.cpu.sp as int, next),
                pc: next,
                ..m.cpu
            },
            ..m
        }),
{
    lemma_call_step(m, addr, next, r1);
    let m1 = step(m, Instr::Call { addr }, next, r1);
    lemma_return_step(m1, next2, r2);
    let m2 = step(m1, Instr::Return, next2, r2);
    assert(m2.cpu =~= CpuState {
        stack: m.cpu.stack.update(m.cpu.sp as int, next),
        pc: next,
        ..m.cpu
    });
}

/// Storing registers `V0..=Vx` and loading them back from the same I gives
/// the registers back.
pub proof fn lemma_store_then_load_regs(m: Machine, x: u8, next: u16, r1: u8, next2: u16, r2: u8)
    requires
        shaped(m.cpu),
        x < 16,
    ensures
        ({
            let m1 = step(m, Instr::StoreRegs { x }, next, r1);
            &&& step(m1, Instr::LoadRegs { x }, next2, r2).cpu.v == m.cpu.v
        }),
{
    reveal(step);
    let m1 = step(m, Instr::StoreRegs { x }, next, r1);
    let m2 = step(m1, Instr::LoadRegs { x }, next2, r2);
    let base = transfer_base(m.cpu.i);
    assert(base < 4096);
    assert forall|q: int| 0 <= q < 16 implies #[trigger] m2.cpu.v[q] == m.cpu.v[q] by {
        if q <= x {
            let a = base + q;
            if a < 4096 {
                assert(mem_get(m1.cpu, a) == m1.cpu.ram[a]);
            } else {
                assert(mem_get(m1.cpu, a) == m1.cpu.gfx[a - 4096]);
            }
        }
    }
    assert(m2.cpu.v =~= m.cpu.v);
}

/// `FX33` stores three decimal digits, hundreds first, that make up Vx.
pub proof fn lemma_bcd_digits(m: Machine, x: u8, next: u16, r: u8)
    requires
        shaped(m.cpu),
        x < 16,
    ensures
        ({
            let c1 = step(m, Instr::StoreBcd { x }, next, r).cpu;
            let base = transfer_base(m.cpu.i);
            &&& mem_get(c1, base) < 10
            &&& mem_get(c1, base + 1) < 10
            &&& mem_get(c1, base + 2) < 10
            &&& 100 * mem_get(c1, base) + 10 * mem_get(c1, base + 1) + mem_get(c1, base + 2)
                == m.cpu.v[x as int]
        }),
{
    reveal(step);
    let c1 = step(m, Instr::StoreBcd { x }, next, r).cpu;
    let base = transfer_base(m.cpu.i);
    let val = m.cpu.v[x as int];
    assert(base < 4096);
    assert(mem_get(c1, base) == (val / 100) as u8);
    assert(mem_get(c1, base + 1) == ((val % 100) / 10) as u8);
    assert(mem_get(c1, base + 2) == ((val % 100) % 10) as u8);
}

/// `8XY4` with X other than F: VF is the carry out of the byte sum, so
/// `VF * 256 + Vx` is the full sum.
pub proof fn lemma_add_carry(m: Machine, x: u8, y: u8, next: u16, r: u8)
    requires
        shaped(m.cpu),
        x < 15,
        y < 16,
    ensures
        ({
            let c1 = step(m, Instr::AddReg { x, y }, next, r).cpu;
            c1.v[15] * 256 + c1.v[x as int] == m.cpu.v[x as int] + m.cpu.v[y as int]
        }),
{
    reveal(step);
}

/// `8XY5` with X other than F: VF is 1 exactly when no borrow was needed,
/// and `Vx - 256 * (1 - VF)` is the difference.
pub proof fn lemma_sub_borrow(m: Machine, x: u8, y: u8, next: u16, r: u8)
    requires
        shaped(m.cpu),
        x < 15,
        y < 16,
    ensures
        ({
            let c1 = step(m, Instr::SubReg { x, y }, next, r).cpu;
            c1.v[x as int] - 256 * (1 - c1.v[15]) == m.cpu.v[x as int] - m.cpu.v[y as int]
        }),
{
    reveal(step);
}

/// The scan for a pressed key from `k` on finds the lowest pressed key at or
/// after `k`, or 16 when none of them is down.
proof fn lemma_first_pressed_from(keys: Seq<bool>, k: int)
    requires
        keys.len() == 16,
        0 <= k <= 16,
    ensures
        k <= first_pressed_from(keys, k) <= 16,
        forall|j: int| k <= j < first_pressed_from(keys, k) ==> !#[trigger] keys[j],
        first_pressed_from(keys, k) < 16 ==> keys[first_pressed_from(keys, k)],
    decreases 16 - k,
{
    if k < 16 && !keys[k] {
        lemma_first_pressed_from(keys, k + 1);
    }
}

/// `FX0A` at `addr` waits for a key: with no key down it changes nothing but
/// sending the program counter back to itself, so it runs again; with a key
/// down the lowest pressed key goes into Vx and execution goes on.
pub proof fn lemma_wait_key(m: Machine, x: u8, addr: u16, r: u8)
    requires
        shaped(m.cpu),
        x < 16,
        addr + 2 < 65536,
    ensures
        ({
            let m1 = step(m, Instr::WaitKey { x }, (addr + 2) as u16, r);
            &&& (forall|k: int| 0 <= k < 16 ==> !m.cpu.keys[k]) ==> m1 == Machine {
                cpu: CpuState { pc: addr, ..m.cpu },
                ..m
            }
            &&& (exists|k: int| 0 <= k < 16 && m.cpu.keys[k]) ==> {
                &&& m1.cpu.pc == addr + 2
                &&& m1.cpu.v[x as int] < 16
                &&& m.cpu.keys[m1.cpu.v[x as int] as int]
                &&& forall|j: int| 0 <= j < m1.cpu.v[x as int] ==> !#[trigger] m.cpu.keys[j]
                &&& forall|q: int| 0 <= q < 16 && q != x ==> #[trigger] m1.cpu.v[q] == m.cpu.v[q]
            }
        }),
{
    reveal(step);
    lemma_first_pressed_from(m.cpu.keys, 0);
    let k = first_pressed(m.cpu.keys);
    let m1 = step(m, Instr::WaitKey { x }, (addr + 2) as u16, r);
    if forall|j: int| 0 <= j < 16 ==> !m.cpu.keys[j] {
        assert(k == 16);
        assert(m1.cpu =~= CpuState { pc: addr, ..m.cpu });
    }
    if exists|j: int| 0 <= j < 16 && m.cpu.keys[j] {
        let w = choose|j: int| 0 <= j < 16 && m.cpu.keys[j];
        assert(k <= w);
        assert(k < 16);
        assert(m1.cpu.v[x as int] == k);
    }
}

/// An instruction that does not end a block always runs and leaves the
/// program counter on the next instruction.
pub proof fn lemma_non_terminator_goes_on(m: Machine, ins: Instr, next: u16, r: u8)
    requires
        shaped(m.cpu),
        operands_in_range(ins),
        !spec_is_terminator(ins),
    ensures
        step(m, ins, next, r).cpu.pc == next,
{
    reveal(step);
}

/// After `FX55` RAM-then-display holds `V0..=Vx` from `I & 0xFFF` on, every
/// other byte is as it was, and I and the registers are unchanged.
pub proof fn lemma_store_regs_writes(m: Machine, x: u8, next: u16, r: u8)
    requires
        shaped(m.cpu),
        x < 16,
    ensures
        ({
            let c1 = step(m, Instr::StoreRegs { x }, next, r).cpu;
            let base = transfer_base(m.cpu.i);
            &&& c1.i == m.cpu.i
            &&& c1.v == m.cpu.v
            &&& forall|q: int| 0 <= q <= x ==> #[trigger] mem_get(c1, base + q) == m.cpu.v[q]
            &&& forall|a: int|
                0 <= a < RAM_SIZE + SCREEN_PIXELS && !(base <= a <= base + x) ==> #[trigger] mem_get(
                    c1,
                    a,
                ) == mem_get(m.cpu, a)
        }),
{
    reveal(step);
}

/// `FX65` loads `V0..=Vx` from `I & 0xFFF` on and leaves the other registers
/// and I alone.
pub proof fn lemma_load_regs_reads(m: Machine, x: u8, next: u16, r: u8)
    requires
        shaped(m.cpu),
        x < 16,
    ensures
        ({
            let c1 = step(m, Instr::LoadRegs { x }, next, r).cpu;
            let base = transfer_base(m.cpu.i);
            &&& c1.i == m.cpu.i
            &&& c1.ram == m.cpu.ram
            &&& c1.gfx == m.cpu.gfx
            &&& forall|q: int| 0 <= q <= x ==> #[trigger] c1.v[q] == mem_get(m.cpu, base + q)
            &&& forall|q: int| x < q < 16 ==> #[trigger] c1.v[q] == m.cpu.v[q]
        }),
{
    reveal(step);
}

/// `FX55`, then anything that keeps I and the stored bytes, then `FX65`
/// with the same X gives back the registers as they were at the store.
pub proof fn lemma_store_then_later_load_regs(
    m: Machine,
    x: u8,
    next: u16,
    r1: u8,
    later: Machine,
    next2: u16,
    r2: u8,
)
    requires
        shaped(m.cpu),
        shaped(later.cpu),
        x < 16,
        later.cpu.i == m.cpu.i,
        forall|q: int|
            0 <= q <= x ==> #[trigger] mem_get(later.cpu, transfer_base(m.cpu.i) + q) == mem_get(
                step(m, Instr::StoreRegs { x }, next, r1).cpu,
                transfer_base(m.cpu.i) + q,
            ),
    ensures
        forall|q: int|
            0 <= q <= x ==> #[trigger] step(later, Instr::LoadRegs { x }, next2, r2).cpu.v[q]
                == m.cpu.v[q],
{
    lemma_store_regs_writes(m, x, next, r1);
    lemma_load_regs_reads(later, x, next2, r2);
    let base = transfer_base(m.cpu.i);
    assert forall|q: int| 0 <= q <= x implies #[trigger] step(
        later,
        Instr::LoadRegs { x },
        next2,
        r2,
    ).cpu.v[q] == m.cpu.v[q] by {
        assert(mem_get(later.cpu, base + q) == mem_get(
            step(m, Instr::StoreRegs { x }, next, r1).cpu,
            base + q,
        ));
    }
}

/// With the font where `CPU::new` and `Emulator::new` put it, `FX29` points
/// I at the five-byte glyph of the hex digit in the low nibble of Vx.
pub proof fn lemma_font_address_points_at_glyph(m: Machine, x: u8, next: u16, r: u8)
    requires
        shaped(m.cpu),
        x < 16,
        forall|j: int| 0 <= j < FONTSIZE ==> #[trigger] m.cpu.ram[FONT_START + j] == FONT_SET@[j],
    ensures
        ({
            let c1 = step(m, Instr::FontAddress { x }, next, r).cpu;
            let d = m.cpu.v[x as int] % 16;
            &&& c1.i == FONT_START + 5 * d
            &&& c1.ram == m.cpu.ram
            &&& forall|j: int| 0 <= j < 5 ==> #[trigger] c1.ram[c1.i + j] == FONT_SET@[5 * d + j]
        }),
{
    reveal(step);
    let c1 = step(m, Instr::FontAddress { x }, next, r).cpu;
    let d = m.cpu.v[x as int] % 16;
    assert forall|j: int| 0 <= j < 5 implies #[trigger] c1.ram[c1.i + j] == FONT_SET@[5 * d + j] by {
        assert(m.cpu.ram[FONT_START + (5 * d + j)] == FONT_SET@[5 * d + j]);
    }
}

/// Pressing and then releasing a mapped key leaves that CHIP-8 key released
/// and every other key as it was.
pub proof fn lemma_press_then_release(keys: Seq<bool>, h: HostKey)
    requires
        keys.len() == 16,
        keymap(h) is Some,
    ensures
        keys_after(keys, seq![InputEvent::KeyDown(h), InputEvent::KeyUp(h)]) == keys.update(
            keymap(h)->0 as int,
            false,
        ),
{
    let evs = seq![InputEvent::KeyDown(h), InputEvent::KeyUp(h)];
    assert(evs.drop_last() =~= seq![InputEvent::KeyDown(h)]);
    assert(seq![InputEvent::KeyDown(h)].drop_last() =~= Seq::<InputEvent>::empty());
    reveal_with_fuel(keys_after, 3);
    let k = keymap(h)->0 as int;
    assert(keys_after(keys, seq![InputEvent::KeyDown(h)]) == keys.update(k, true));
    assert(keys.update(k, true).update(k, false) =~= keys.update(k, false));
    assert(keys_after(keys, evs) =~= keys.update(keymap(h)->0 as int, false));
}

} // verus!

verus! {

/// A word `2TTT` at `a` makes a block of the call alone.
proof fn lemma_call_block(ram: Seq<u8>, a: int, t: u16)
    requires
        ram.len() == RAM_SIZE,
        0 <= a,
        a + 2 <= RAM_SIZE,
        t < 4096,
        ram[a] == 0x20 + t / 256,
        ram[a + 1] == t % 256,
    ensures
        block_at(ram, a) == seq![Instr::Call { addr: t }],
{
    assert(spec_fetch(ram, a) == 0x2000 + t);
    assert(spec_decode(spec_fetch(ram, a)) == Instr::Call { addr: t });
    let b = seq![Instr::Call { addr: t }];
    assert(is_block_of(ram, a, b));
    lemma_block_at(ram, a, b);
}

/// A word `00EE` at `t` makes a block of the return alone.
proof fn lemma_return_block(ram: Seq<u8>, t: int)
    requires
        ram.len() == RAM_SIZE,
        0 <= t,
        t + 2 <= RAM_SIZE,
        ram[t] == 0x00,
        ram[t + 1] == 0xEE,
    ensures
        block_at(ram, t) == seq![Instr::Return],
{
    assert(spec_fetch(ram, t) == 0x00EE);
    assert(spec_decode(spec_fetch(ram, t)) == Instr::Return);
    let b = seq![Instr::Return];
    assert(is_block_of(ram, t, b));
    lemma_block_at(ram, t, b);
}

/// Running a block of one instruction is that one step.
proof fn lemma_run_single(m: Machine, start: int, ins: Instr, entropy: Seq<u8>)
    requires
        entropy.len() >= 1,
        0 <= start,
        start + 2 < 65536,
    ensures
        run_block(m, start, seq![ins], entropy) == step(m, ins, (start + 2) as u16, entropy[0]),
{
    let b = seq![ins];
    lemma_run_from_unfold(m, start, b, entropy, 0);
    lemma_run_from_done(step(m, ins, next_pc(start, 0), entropy[0]), start, b, entropy);
    assert(next_pc(start, 0) == (start + 2) as u16);
}

/// Two runs of `CPU::execute`, as its contract states them, on a program
/// that calls a subroutine holding only a return: with the program counter
/// at `a` on `2TTT`, `00EE` at `t`, nothing cached at either address and a
/// free stack slot, both runs may go ahead, the first calls and the second
/// returns, which leaves the program counter at `a + 2`, the stack pointer as it was, `a + 2` in
/// the stack slot at the stack pointer, and everything else unchanged.
pub proof fn lemma_execute_call_then_return(
    cache: Seq<Option<Seq<Instr>>>,
    m: Machine,
    t: u16,
    e1: Seq<u8>,
    e2: Seq<u8>,
)
    requires
        shaped(m.cpu),
        cache.len() == RAM_SIZE,
        m.cpu.pc % 2 == 0,
        m.cpu.pc <= 0xFFE,
        t % 2 == 0,
        t <= 0xFFE,
        t != m.cpu.pc,
        m.cpu.ram[m.cpu.pc as int] == 0x20 + t / 256,
        m.cpu.ram[m.cpu.pc + 1] == t % 256,
        m.cpu.ram[t as int] == 0x00,
        m.cpu.ram[t + 1] == 0xEE,
        m.cpu.sp < 16,
        cache[m.cpu.pc as int] is None,
        cache[t as int] is None,
        e1.len() >= 1,
        e2.len() >= 1,
    ensures
        ({
            let a = m.cpu.pc as int;
            let p1 = block_start(m.cpu.pc) as int;
            let b1 = executed_block(cache, m.cpu.ram, p1);
            let m1 = run_block(m, p1, b1, e1);
            let cache1 = cache.update(p1, Some(b1));
            let p2 = block_start(m1.cpu.pc) as int;
            let b2 = executed_block(cache1, m1.cpu.ram, p2);
            let m2 = run_block(m1, p2, b2, e2);
            &&& next_block_ok(cache, m.cpu.ram, p1)
            &&& next_block_ok(cache1, m1.cpu.ram, p2)
            &&& m2 == (Machine {
                cpu: CpuState {
                    stack: m.cpu.stack.update(m.cpu.sp as int, (a + 2) as u16),
                    pc: (a + 2) as u16,
                    ..m.cpu
                },
                ..m
            })
        }),
{
    let pc = m.cpu.pc;
    let a = pc as int;
    assert(pc & 0x0FFEu16 == pc) by (bit_vector)
        requires
            pc % 2 == 0,
            pc <= 0xFFE,
    ;
    assert(t & 0x0FFEu16 == t) by (bit_vector)
        requires
            t % 2 == 0,
            t <= 0xFFE,
    ;
    let ram = m.cpu.ram;
    lemma_call_block(ram, a, t);
    let b1 = seq![Instr::Call { addr: t }];
    lemma_run_single(m, a, Instr::Call { addr: t }, e1);
    lemma_call_step(m, t, (a + 2) as u16, e1[0]);
    let m1 = step(m, Instr::Call { addr: t }, (a + 2) as u16, e1[0]);
    lemma_return_block(ram, t as int);
    let b2 = seq![Instr::Return];
    let cache1 = cache.update(a, Some(b1));
    assert(cache1[t as int] is None);
    lemma_run_single(m1, t as int, Instr::Return, e2);
    lemma_return_step(m1, (t + 2) as u16, e2[0]);
    let m2 = step(m1, Instr::Return, (t + 2) as u16, e2[0]);
    assert(clears_at_most_once(b1));
    assert(clears_at_most_once(b2));
    assert(m2.cpu =~= CpuState {
        stack: m.cpu.stack.update(m.cpu.sp as int, (a + 2) as u16),
        pc: (a + 2) as u16,
        ..m.cpu
    });
}


/// The display index of the pixel in sprite row `row`, column `col`, with the
/// sprite's top left corner at `(vx, vy)`; both coordinates wrap around the
/// 64 x 32 screen.
pub open spec fn sprite_pixel(vx: u8, vy: u8, row: int, col: int) -> int {
    ((vy + row) % 32) * 64 + (vx + col) % 64
}

/// Counting the flips of the pixel under sprite pixel `k0`: it is flipped
/// once when that sprite pixel is among the first `k` and set, else never.
proof fn lemma_flips_exact(ram: Seq<u8>, i: u16, vx: u8, vy: u8, k0: int, k: nat)
    requires
        0 <= k0 < 256,
        k <= 256,
    ensures
        flips(ram, i, vx, vy, pixel_index(vx, vy, k0), k) == (if k0 < k && sprite_bit(ram, i, k0) {
            1nat
        } else {
            0nat
        }),
    decreases k,
{
    if k > 0 {
        let j = (k - 1) as int;
        lemma_flips_exact(ram, i, vx, vy, k0, (k - 1) as nat);
        if pixel_index(vx, vy, j) == pixel_index(vx, vy, k0) {
            lemma_pixel_index_injective(vx, vy, j, k0);
        }
    }
}

/// `DXYN` (N at most 15) XORs the sprite onto the display: the pixel under
/// row `r`, column `c` of the sprite (at `((Vy + r) % 32, (Vx + c) % 64)`)
/// flips exactly when bit `7 - c` of the byte at `I + r` (in RAM, modulo
/// 4096) is set, every other pixel stays as it was, and nothing changes but
/// the display, VF and the program counter.
pub proof fn lemma_draw_pixels(m: Machine, x: u8, y: u8, n: u8, next: u16, r: u8)
    requires
        shaped(m.cpu),
        x < 16,
        y < 16,
        n < 16,
    ensures
        ({
            let c0 = m.cpu;
            let m1 = step(m, Instr::Draw { x, y, n }, next, r);
            let c1 = m1.cpu;
            let vx = c0.v[x as int];
            let vy = c0.v[y as int];
            &&& c1.gfx.len() == SCREEN_PIXELS
            &&& c1.v.len() == 16
            &&& c1 == CpuState { gfx: c1.gfx, v: c1.v, pc: next, ..c0 }
            &&& forall|q: int| 0 <= q < 15 ==> #[trigger] c1.v[q] == c0.v[q]
            &&& m1.delay == m.delay && m1.sound == m.sound
            &&& forall|row: int, col: int|
                0 <= row < n && 0 <= col < 8 ==> {
                    let p = #[trigger] sprite_pixel(vx, vy, row, col);
                    let lit = (c0.ram[(c0.i + row) % 4096] >> ((7 - col) as u8)) & 1u8 == 1u8;
                    c1.gfx[p] == (if lit {
                        c0.gfx[p] ^ 1u8
                    } else {
                        c0.gfx[p]
                    })
                }
            &&& forall|p: int|
                0 <= p < SCREEN_PIXELS && (forall|row: int, col: int|
                    0 <= row < n && 0 <= col < 8 ==> p != #[trigger] sprite_pixel(vx, vy, row, col))
                    ==> #[trigger] c1.gfx[p] == c0.gfx[p]
        }),
{
    reveal(step);
    let c0 = m.cpu;
    let c1 = step(m, Instr::Draw { x, y, n }, next, r).cpu;
    let vx = c0.v[x as int];
    let vy = c0.v[y as int];
    let k = (8 * n) as nat;
    assert forall|row: int, col: int| 0 <= row < n && 0 <= col < 8 implies {
        let p = #[trigger] sprite_pixel(vx, vy, row, col);
        let lit = (c0.ram[(c0.i + row) % 4096] >> ((7 - col) as u8)) & 1u8 == 1u8;
        c1.gfx[p] == (if lit {
            c0.gfx[p] ^ 1u8
        } else {
            c0.gfx[p]
        })
    } by {
        let k0 = 8 * row + col;
        assert(k0 / 8 == row && k0 % 8 == col);
        assert(pixel_index(vx, vy, k0) == sprite_pixel(vx, vy, row, col));
        lemma_pixel_index_bounds(vx, vy, k0);
        lemma_flips_exact(c0.ram, c0.i, vx, vy, k0, k);
    }
    assert forall|p: int|
        0 <= p < SCREEN_PIXELS && (forall|row: int, col: int|
            0 <= row < n && 0 <= col < 8 ==> p != #[trigger] sprite_pixel(vx, vy, row, col))
            implies #[trigger] c1.gfx[p] == c0.gfx[p] by {
        if flips(c0.ram, c0.i, vx, vy, p, k) >= 1 {
            lemma_flips_witness(c0.ram, c0.i, vx, vy, p, k);
            let j = choose|j: int|
                0 <= j < k && #[trigger] pixel_index(vx, vy, j) == p && sprite_bit(c0.ram, c0.i, j);
            assert(pixel_index(vx, vy, j) == sprite_pixel(vx, vy, j / 8, j % 8));
            assert(p != sprite_pixel(vx, vy, j / 8, j % 8));
        }
    }
}

/// Past the stack array a call spills into the CPU's next fields: with the
/// stack pointer at 16 the return address goes over the stack-pointer byte
/// (low) and RAM byte 0 (high), and the stack pointer then counts up from
/// that byte; with the stack pointer `s` above 16 it goes to RAM bytes
/// `2s - 33` (low) and `2s - 32` (high). The stack pointer counts modulo 256.
#[verifier::rlimit(30)]
pub proof fn lemma_call_past_the_array(m: Machine, addr: u16, next: u16, r: u8)
    requires
        shaped(m.cpu),
        m.cpu.sp >= 16,
    ensures
        ({
            let c0 = m.cpu;
            let s = c0.sp as int;
            let call = step(m, Instr::Call { addr }, next, r).cpu;
            &&& s == 16 ==> call == CpuState {
                sp: ((next % 256 + 1) % 256) as u8,
                ram: c0.ram.update(0, (next / 256) as u8),
                pc: addr,
                ..c0
            }
            &&& s > 16 ==> call == CpuState {
                sp: ((s + 1) % 256) as u8,
                ram: c0.ram.update(2 * s - 33, (next % 256) as u8).update(2 * s - 32, (next / 256) as u8),
                pc: addr,
                ..c0
            }
        }),
{
    reveal(step);
}

/// Past the stack array a return reads the CPU's next fields: with the stack
/// pointer at 0 it wraps to 255 and the address comes from RAM bytes 477
/// (low) and 478 (high); at 17 it comes from the stack pointer (now 16) and
/// RAM byte 0; above 17 from RAM bytes `2(s - 1) - 33` and `2(s - 1) - 32`.
#[verifier::rlimit(30)]
pub proof fn lemma_return_past_the_array(m: Machine, next: u16, r: u8)
    requires
        shaped(m.cpu),
        m.cpu.sp == 0 || m.cpu.sp >= 17,
    ensures
        ({
            let c0 = m.cpu;
            let s = c0.sp as int;
            let ret = step(m, Instr::Return, next, r).cpu;
            &&& s == 0 ==> ret == CpuState {
                sp: 255,
                pc: (c0.ram[477] + 256 * c0.ram[478]) as u16,
                ..c0
            }
            &&& s == 17 ==> ret == CpuState { sp: 16, pc: (16 + 256 * c0.ram[0]) as u16, ..c0 }
            &&& s > 17 ==> ret == CpuState {
                sp: (s - 1) as u8,
                pc: (c0.ram[2 * (s - 1) - 33] + 256 * c0.ram[2 * (s - 1) - 32]) as u16,
                ..c0
            }
        }),
{
    reveal(step);
}

/// `FX33`, `FX55` and `FX65` address RAM-then-display from `I & 0xFFF`.
pub proof fn lemma_transfer_base_is_low_twelve_bits(i: u16)
    ensures
        transfer_base(i) == (i & 0xFFFu16) as int,
{
    assert(i & 0xFFFu16 == i % 4096) by (bit_vector);
}

/// The instructions that end a block are exactly those that may move the
/// program counter elsewhere than the next instruction (returns, jumps,
/// calls, skips, `FX0A`) and opcodes with no meaning.
pub proof fn lemma_terminators(ins: Instr)
    ensures
        spec_is_terminator(ins) == (ins is Return || ins is Jump || ins is Call || ins is SkipEqImm
            || ins is SkipNeImm || ins is SkipEqReg || ins is SkipNeReg || ins is JumpOffset
            || ins is SkipKeyPressed || ins is SkipKeyReleased || ins is WaitKey || ins is Unknown),
{
}


/// RAM-then-display: addresses below 4096 read and write RAM, the next 2048
/// read and write the display at the address less 4096, and a write changes
/// that one byte only.
pub proof fn lemma_ram_then_display(c: CpuState, a: int, b: u8)
    requires
        shaped(c),
        0 <= a < RAM_SIZE + SCREEN_PIXELS,
    ensures
        a < 4096 ==> mem_get(c, a) == c.ram[a],
        a >= 4096 ==> mem_get(c, a) == c.gfx[a - 4096],
        mem_get(mem_set(c, a, b), a) == b,
        forall|q: int|
            0 <= q < RAM_SIZE + SCREEN_PIXELS && q != a ==> #[trigger] mem_get(mem_set(c, a, b), q)
                == mem_get(c, q),
        mem_set(c, a, b) == (CpuState { ram: mem_set(c, a, b).ram, gfx: mem_set(c, a, b).gfx, ..c }),
{
}

/// A block starts at the even address at or just below the program
/// counter, taken modulo 4096.
pub proof fn lemma_block_start_even_below(pc: u16)
    ensures
        block_start(pc) as int == pc % 4096 - pc % 2,
{
    assert(pc & 0x0FFEu16 == (pc % 4096) - (pc % 2)) by (bit_vector);
}


/// What a block formed from RAM is: its `k`-th instruction is the decoded
/// word whose high byte is at `start + 2k` and low byte right after; it holds
/// between 1 and 512 instructions, none but the last ends a block, and the
/// last ends a block unless the block holds 512 instructions or no whole
/// word is left in RAM after it.
pub proof fn lemma_block_shape(ram: Seq<u8>, start: int, b: Seq<Instr>)
    requires
        is_block_of(ram, start, b),
    ensures
        1 <= b.len() <= 512,
        start + 2 * b.len() <= 4096,
        forall|k: int|
            0 <= k < b.len() ==> #[trigger] b[k] == spec_decode(
                (ram[start + 2 * k] * 256 + ram[start + 2 * k + 1]) as u16,
            ),
        forall|k: int| 0 <= k < b.len() - 1 ==> !spec_is_terminator(#[trigger] b[k]),
        spec_is_terminator(b[b.len() - 1]) || b.len() == 512 || start + 2 * b.len() + 1 >= 4096,
{
    assert forall|k: int| 0 <= k < b.len() implies #[trigger] b[k] == spec_decode(
        (ram[start + 2 * k] * 256 + ram[start + 2 * k + 1]) as u16,
    ) by {
        assert(b[k] == spec_decode(spec_fetch(ram, start + 2 * k)));
    }
}

/// A block runs its instructions one after another, the `k`-th with the
/// program counter already past it (`start + 2k + 2`, modulo 2^16) and with
/// random byte `entropy[k]`: a block of two instructions is two steps.
pub proof fn lemma_run_two(m: Machine, start: int, a: Instr, b: Instr, entropy: Seq<u8>)
    requires
        0 <= start,
    ensures
        run_block(m, start, seq![a, b], entropy) == step(
            step(m, a, ((start + 2) % 65536) as u16, entropy[0]),
            b,
            ((start + 4) % 65536) as u16,
            entropy[1],
        ),
{
    let blk = seq![a, b];
    lemma_run_from_unfold(m, start, blk, entropy, 0);
    let m1 = step(m, a, next_pc(start, 0), entropy[0]);
    lemma_run_from_unfold(m1, start, blk, entropy, 1);
    let m2 = step(m1, b, next_pc(start, 1), entropy[1]);
    lemma_run_from_done(m2, start, blk, entropy);
}

} // verus!
