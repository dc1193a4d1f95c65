use chip8_jit::{decode, draw_sprite, Emulator, Instr, CPU, FONT_SET, MAX_BLOCK_INSTRUCTIONS};

fn no_entropy() -> [u8; MAX_BLOCK_INSTRUCTIONS] {
    [0u8; MAX_BLOCK_INSTRUCTIONS]
}

fn emulator_with(program: &[u8]) -> Emulator {
    let mut emu = Emulator::new();
    emu.load(program);
    emu
}

fn run_once(emu: &mut Emulator) {
    let entropy = no_entropy();
    emu.cpu.execute(&mut emu.timers, &entropy);
}

#[test]
fn cpu_new_places_fonts_and_starts_at_0x200() {
    let fonts = [1u8, 2, 3];
    let cpu = CPU::new(&fonts);
    assert_eq!(cpu.pc, 0x200);
    assert_eq!(cpu.i, 0);
    assert_eq!(cpu.v, [0u8; 16]);
    assert_eq!(cpu.sp, 0);
    assert_eq!(&cpu.ram[0x50..0x53], &[1, 2, 3]);
    assert_eq!(cpu.ram[0x4F], 0);
    assert_eq!(cpu.ram[0x53], 0);
    assert!(cpu.gfx.iter().all(|&p| p == 0));
    assert!(cpu.keys.iter().all(|&k| !k));
}

#[test]
fn emulator_new_loads_the_font_set() {
    let emu = Emulator::new();
    assert_eq!(&emu.cpu.ram[0x50..0x50 + 80], &FONT_SET[..]);
    assert_eq!(emu.cpu.ram[0x50], 0xF0);
    assert_eq!(emu.cpu.ram[0x50 + 79], 0x80);
    assert_eq!(emu.timers.delay_timer, 0);
    assert_eq!(emu.timers.sound_timer, 0);
    assert!(emu.timers.running);
}

#[test]
fn load_places_program_at_0x200() {
    let emu = emulator_with(&[0xAB, 0xCD, 0xEF]);
    assert_eq!(&emu.cpu.ram[0x200..0x203], &[0xAB, 0xCD, 0xEF]);
    assert_eq!(emu.cpu.ram[0x203], 0);
    assert_eq!(emu.cpu.ram[0x1FF], 0);
}

#[test]
fn load_fills_ram_to_the_end() {
    let program = vec![7u8; 0xE00];
    let emu = emulator_with(&program);
    assert_eq!(emu.cpu.ram[0xFFF], 7);
    assert_eq!(emu.cpu.ram[0x200], 7);
}

#[test]
fn decode_splits_opcodes() {
    assert_eq!(decode(0x00E0), Instr::ClearScreen);
    assert_eq!(decode(0x01E0), Instr::ClearScreen);
    assert_eq!(decode(0x00EE), Instr::Return);
    assert_eq!(decode(0x0123), Instr::Unknown);
    assert_eq!(decode(0x1234), Instr::Jump { addr: 0x234 });
    assert_eq!(decode(0x2ABC), Instr::Call { addr: 0xABC });
    assert_eq!(decode(0x3A42), Instr::SkipEqImm { x: 0xA, kk: 0x42 });
    assert_eq!(decode(0x5AB7), Instr::SkipEqReg { x: 0xA, y: 0xB });
    assert_eq!(decode(0x8AB4), Instr::AddReg { x: 0xA, y: 0xB });
    assert_eq!(decode(0x8AB6), Instr::ShiftRight { x: 0xA });
    assert_eq!(decode(0x8AB8), Instr::Unknown);
    assert_eq!(decode(0xB123), Instr::JumpOffset { addr: 0x123 });
    assert_eq!(decode(0xD12F), Instr::Draw { x: 1, y: 2, n: 0xF });
    assert_eq!(decode(0xE39E), Instr::SkipKeyPressed { x: 3 });
    assert_eq!(decode(0xE3A1), Instr::SkipKeyReleased { x: 3 });
    assert_eq!(decode(0xE3A2), Instr::Unknown);
    assert_eq!(decode(0xF40A), Instr::WaitKey { x: 4 });
    assert_eq!(decode(0xF465), Instr::LoadRegs { x: 4 });
    assert_eq!(decode(0xF4FF), Instr::Unknown);
}

#[test]
fn straight_line_block_runs_to_the_jump() {
    // 6005: V0 = 5; 7003: V0 += 3; 1200: jump back.
    let mut emu = emulator_with(&[0x60, 0x05, 0x70, 0x03, 0x12, 0x00]);
    run_once(&mut emu);
    assert_eq!(emu.cpu.v[0], 8);
    assert_eq!(emu.cpu.pc, 0x200);
}

#[test]
fn add_immediate_wraps_without_flag() {
    let mut emu = emulator_with(&[0x60, 0xFF, 0x70, 0x02, 0x12, 0x00]);
    run_once(&mut emu);
    assert_eq!(emu.cpu.v[0], 1);
    assert_eq!(emu.cpu.v[15], 0);
}

#[test]
fn add_registers_sets_carry() {
    // V0 = FF, V1 = 02, V0 += V1.
    let mut emu = emulator_with(&[0x60, 0xFF, 0x61, 0x02, 0x80, 0x14, 0x12, 0x00]);
    run_once(&mut emu);
    let v = emu.cpu.v;
    assert_eq!(v[0], 1);
    assert_eq!(v[15], 1);
    // carry law: VF * 256 + V0 == 0xFF + 0x02
    assert_eq!(v[15] as u32 * 256 + v[0] as u32, 0xFF + 0x02);
}

#[test]
fn subtract_sets_not_borrow() {
    // V0 = 3, V1 = 5, V0 -= V1 -> 0xFE, VF = 0; V2 = 5, V3 = 3, V2 -= V3 -> 2, VF = 1
    let mut emu = emulator_with(&[
        0x60, 0x03, 0x61, 0x05, 0x80, 0x15, 0x84, 0xF0, 0x62, 0x05, 0x63, 0x03, 0x82, 0x35,
        0x12, 0x00,
    ]);
    run_once(&mut emu);
    let v = emu.cpu.v;
    assert_eq!(v[0], 0xFE);
    assert_eq!(v[4], 0);
    assert_eq!(v[2], 2);
    assert_eq!(v[15], 1);
}

#[test]
fn reverse_subtract_and_shifts() {
    // V0 = 3, V1 = 5, V0 = V1 - V0 -> 2, VF = 1
    // V2 = 0x81, V2 >>= 1 -> 0x40, VF = 1 -> V5 = VF
    // V3 = 0x81, V3 <<= 1 -> 0x02, VF = 1 -> V6 = VF
    // V4 = 0x40, V4 <<= 1 -> 0x80, VF = 0
    let mut emu = emulator_with(&[
        0x60, 0x03, 0x61, 0x05, 0x80, 0x17, 0x62, 0x81, 0x82, 0x06, 0x85, 0xF0, 0x63, 0x81,
        0x83, 0x0E, 0x86, 0xF0, 0x64, 0x40, 0x84, 0x0E, 0x12, 0x00,
    ]);
    run_once(&mut emu);
    let v = emu.cpu.v;
    assert_eq!(v[0], 2);
    assert_eq!(v[2], 0x40);
    assert_eq!(v[5], 1);
    assert_eq!(v[3], 0x02);
    assert_eq!(v[6], 1);
    assert_eq!(v[4], 0x80);
    assert_eq!(v[15], 0);
}

#[test]
fn bitwise_operations() {
    // V0 = 0xC, V1 = 0xA; V2 = V0 | V1; V3 = V0 & V1; V4 = V0 ^ V1
    let mut emu = emulator_with(&[
        0x60, 0x0C, 0x61, 0x0A, 0x82, 0x00, 0x82, 0x11, 0x83, 0x00, 0x83, 0x12, 0x84, 0x00,
        0x84, 0x13, 0x12, 0x00,
    ]);
    run_once(&mut emu);
    let v = emu.cpu.v;
    assert_eq!(v[2], 0xE);
    assert_eq!(v[3], 0x8);
    assert_eq!(v[4], 0x6);
}

#[test]
fn skip_if_equal_skips_one_instruction() {
    // 0x200: 6005, 0x202: 3005 -> skip to 0x206
    let mut emu = emulator_with(&[0x60, 0x05, 0x30, 0x05]);
    run_once(&mut emu);
    assert_eq!(emu.cpu.pc, 0x206);
    // not equal: no skip
    let mut emu = emulator_with(&[0x60, 0x05, 0x30, 0x06]);
    run_once(&mut emu);
    assert_eq!(emu.cpu.pc, 0x204);
}

#[test]
fn skip_register_variants() {
    // 4005 with V0 = 0: skip; 5010 with V0 == V1: skip; 9010 with V0 == V1: no skip
    let mut emu = emulator_with(&[0x40, 0x05]);
    run_once(&mut emu);
    assert_eq!(emu.cpu.pc, 0x204);
    let mut emu = emulator_with(&[0x50, 0x10]);
    run_once(&mut emu);
    assert_eq!(emu.cpu.pc, 0x204);
    let mut emu = emulator_with(&[0x90, 0x10]);
    run_once(&mut emu);
    assert_eq!(emu.cpu.pc, 0x202);
}

#[test]
fn call_then_return_comes_back() {
    // 0x200: 2206 (call 0x206); 0x206: 00EE
    let mut emu = emulator_with(&[0x22, 0x06, 0x00, 0x00, 0x00, 0x00, 0x00, 0xEE]);
    run_once(&mut emu);
    assert_eq!(emu.cpu.pc, 0x206);
    assert_eq!(emu.cpu.sp, 1);
    assert_eq!(emu.cpu.stack[0], 0x202);
    run_once(&mut emu);
    assert_eq!(emu.cpu.pc, 0x202);
    assert_eq!(emu.cpu.sp, 0);
}

#[test]
fn return_with_empty_stack_wraps_the_stack_pointer() {
    // sp 0 wraps to 255; slot 255 is RAM bytes 477 (low) and 478 (high)
    let mut emu = emulator_with(&[0x60, 0x07, 0x00, 0xEE]);
    emu.cpu.ram[477] = 0x34;
    emu.cpu.ram[478] = 0x02;
    run_once(&mut emu);
    assert_eq!(emu.cpu.v[0], 7);
    assert_eq!(emu.cpu.sp, 255);
    assert_eq!(emu.cpu.pc, 0x0234);
}

#[test]
fn call_with_full_stack_writes_past_the_stack() {
    // slot 16 is the stack-pointer byte (low) and RAM byte 0 (high):
    // the return address 0x202 sets sp to 0x02 and ram[0] to 0x02, then sp + 1
    let mut emu = emulator_with(&[0x23, 0x00]);
    emu.cpu.sp = 16;
    run_once(&mut emu);
    assert_eq!(emu.cpu.pc, 0x300);
    assert_eq!(emu.cpu.sp, 3);
    assert_eq!(emu.cpu.ram[0], 0x02);
    assert_eq!(emu.cpu.stack, [0u16; 16]);
}

#[test]
fn return_with_stack_pointer_past_the_stack_reads_past_the_stack() {
    // sp 17 -> 16; slot 16 reads sp (16) as the low byte and ram[0] as the high byte
    let mut emu = emulator_with(&[0x00, 0xEE]);
    emu.cpu.sp = 17;
    emu.cpu.ram[0] = 0x01;
    run_once(&mut emu);
    assert_eq!(emu.cpu.sp, 16);
    assert_eq!(emu.cpu.pc, 0x0110);
}

#[test]
fn jump_with_offset() {
    // V0 = 4; B300 -> pc = 0x304
    let mut emu = emulator_with(&[0x60, 0x04, 0xB3, 0x00]);
    run_once(&mut emu);
    assert_eq!(emu.cpu.pc, 0x304);
}

#[test]
fn odd_program_counter_starts_at_the_even_address_below() {
    // 0x200: 1203 jumps to an odd address; 0x202: 6109, 0x204: 1204
    let mut emu = emulator_with(&[0x12, 0x03, 0x61, 0x09, 0x12, 0x04]);
    run_once(&mut emu);
    assert_eq!(emu.cpu.pc, 0x203);
    run_once(&mut emu);
    assert_eq!(emu.cpu.v[1], 9);
    assert_eq!(emu.cpu.pc, 0x204);
}

#[test]
fn random_masks_the_entropy_byte_of_its_slot() {
    // 6000 at slot 0, C00F at slot 1, C1F0 at slot 2
    let mut emu = emulator_with(&[0x60, 0x00, 0xC0, 0x0F, 0xC1, 0xF0, 0x12, 0x00]);
    let mut entropy = no_entropy();
    entropy[0] = 0xFF;
    entropy[1] = 0xAB;
    entropy[2] = 0xCD;
    emu.cpu.execute(&mut emu.timers, &entropy);
    assert_eq!(emu.cpu.v[0], 0x0B);
    assert_eq!(emu.cpu.v[1], 0xC0);
}

#[test]
fn index_register_instructions() {
    // A123: I = 0x123; 6010; F01E: I += 0x10 -> 0x133
    let mut emu = emulator_with(&[0xA1, 0x23, 0x60, 0x10, 0xF0, 0x1E, 0x12, 0x00]);
    run_once(&mut emu);
    assert_eq!(emu.cpu.i, 0x133);
    // FX29: I = 0x50 + 5 * (VX & 0xF); V0 = 0x1A -> 0x50 + 50
    let mut emu = emulator_with(&[0x60, 0x1A, 0xF0, 0x29, 0x12, 0x00]);
    run_once(&mut emu);
    assert_eq!(emu.cpu.i, 0x50 + 50);
}

#[test]
fn add_to_index_wraps_at_16_bits() {
    // AFFF; 6001; F01E three times... I is 12-bit from ANNN, so reach the top
    // by repeated adds of 0xFF: 0xFFF + 0xFF * 241 = 0x10000 + 0xEE -> wraps
    let mut program = vec![0xAF, 0xFF, 0x60, 0xFF];
    for _ in 0..241 {
        program.extend_from_slice(&[0xF0, 0x1E]);
    }
    program.extend_from_slice(&[0x12, 0x00]);
    let mut emu = emulator_with(&program);
    run_once(&mut emu);
    let expected = ((0xFFFu32 + 0xFF * 241) % 65536) as u16;
    assert_eq!(emu.cpu.i, expected);
}

#[test]
fn bcd_writes_three_digits() {
    // V0 = 234 (0xEA); A300; F033
    let mut emu = emulator_with(&[0x60, 0xEA, 0xA3, 0x00, 0xF0, 0x33, 0x12, 0x00]);
    run_once(&mut emu);
    assert_eq!(&emu.cpu.ram[0x300..0x303], &[2, 3, 4]);
    let d = &emu.cpu.ram[0x300..0x303];
    assert_eq!(100 * d[0] as u32 + 10 * d[1] as u32 + d[2] as u32, 234);
}

#[test]
fn bcd_at_the_end_of_ram_runs_on_into_the_display() {
    // V0 = 0x7B (123); AFFF; F033
    let mut emu = emulator_with(&[0x60, 0x7B, 0xAF, 0xFF, 0xF0, 0x33, 0x12, 0x00]);
    run_once(&mut emu);
    assert_eq!(emu.cpu.ram[0xFFF], 1);
    assert_eq!(emu.cpu.gfx[0], 2);
    assert_eq!(emu.cpu.gfx[1], 3);
}

#[test]
fn store_then_load_registers_round_trip() {
    // V0..V3 = 1,2,3,4; A400; F355; V0..V3 = 0; F365
    let mut emu = emulator_with(&[
        0x60, 0x01, 0x61, 0x02, 0x62, 0x03, 0x63, 0x04, 0x64, 0x09, 0xA4, 0x00, 0xF3, 0x55,
        0x60, 0x00, 0x61, 0x00, 0x62, 0x00, 0x63, 0x00, 0xF3, 0x65, 0x12, 0x00,
    ]);
    run_once(&mut emu);
    assert_eq!(&emu.cpu.ram[0x400..0x405], &[1, 2, 3, 4, 0]);
    let v = emu.cpu.v;
    assert_eq!(&v[0..5], &[1, 2, 3, 4, 9]);
}

#[test]
fn timer_instructions_use_the_timers() {
    // V0 = 0x30; F015: delay = V0; F118 with V1 = 0x22: sound = V1; F207: V2 = delay
    let mut emu = emulator_with(&[0x60, 0x30, 0xF0, 0x15, 0x61, 0x22, 0xF1, 0x18, 0xF2, 0x07, 0x12, 0x00]);
    run_once(&mut emu);
    assert_eq!(emu.timers.delay_timer, 0x30);
    assert_eq!(emu.timers.sound_timer, 0x22);
    assert_eq!(emu.cpu.v[2], 0x30);
    assert!(emu.timers.running);
}

#[test]
fn key_skips_follow_the_keypad() {
    // V0 = 5; E09E: skip if key 5 pressed
    let mut emu = emulator_with(&[0x60, 0x05, 0xE0, 0x9E]);
    emu.cpu.keys[5] = true;
    run_once(&mut emu);
    assert_eq!(emu.cpu.pc, 0x206);
    let mut emu = emulator_with(&[0x60, 0x05, 0xE0, 0xA1]);
    emu.cpu.keys[5] = true;
    run_once(&mut emu);
    assert_eq!(emu.cpu.pc, 0x204);
    // only the low nibble of VX picks the key
    let mut emu = emulator_with(&[0x60, 0x15, 0xE0, 0xA1]);
    run_once(&mut emu);
    assert_eq!(emu.cpu.pc, 0x206);
}

#[test]
fn wait_key_repeats_until_a_key_is_down() {
    // V3 = 0x42; then FX0A at 0x202
    let mut emu = emulator_with(&[0x63, 0x42, 0xF3, 0x0A]);
    run_once(&mut emu);
    assert_eq!(emu.cpu.pc, 0x202);
    assert_eq!(emu.cpu.v[3], 0x42);
    run_once(&mut emu);
    assert_eq!(emu.cpu.pc, 0x202);
    assert_eq!(emu.cpu.v[3], 0x42);
    emu.cpu.keys[9] = true;
    emu.cpu.keys[12] = true;
    run_once(&mut emu);
    assert_eq!(emu.cpu.pc, 0x204);
    assert_eq!(emu.cpu.v[3], 9);
}

#[test]
fn draw_font_glyph_then_erase_it() {
    // A050 (glyph 0), V0 = 0, V1 = 0, D015, 1208 at 0x208
    let mut emu = emulator_with(&[0xA0, 0x50, 0x60, 0x00, 0x61, 0x00, 0xD0, 0x15, 0x12, 0x08]);
    run_once(&mut emu);
    let glyph = [0xF0u8, 0x90, 0x90, 0x90, 0xF0];
    for row in 0..5 {
        for col in 0..8 {
            let lit = (glyph[row] >> (7 - col)) & 1;
            assert_eq!(emu.cpu.gfx[row * 64 + col], lit);
        }
    }
    assert_eq!(emu.cpu.v[15], 0);
    let lit: usize = emu.cpu.gfx.iter().map(|&p| p as usize).sum();
    assert_eq!(lit, 4 + 2 + 2 + 2 + 4);
    // draw the same sprite again: the screen is blank and VF reports the collision
    let mut emu = emulator_with(&[
        0xA0, 0x50, 0x60, 0x00, 0x61, 0x00, 0xD0, 0x15, 0xD0, 0x15, 0x12, 0x0A,
    ]);
    run_once(&mut emu);
    assert!(emu.cpu.gfx.iter().all(|&p| p == 0));
    assert_eq!(emu.cpu.v[15], 1);
}

#[test]
fn draw_wraps_around_the_edges() {
    // glyph 0 at (62, 30): its columns 0..3 land on 62, 63, 0, 1, rows 30, 31, 0, 1, 2
    let mut emu = emulator_with(&[0xA0, 0x50, 0x60, 62, 0x61, 30, 0xD0, 0x15, 0x12, 0x08]);
    run_once(&mut emu);
    assert_eq!(emu.cpu.gfx[30 * 64 + 62], 1);
    assert_eq!(emu.cpu.gfx[30 * 64 + 63], 1);
    assert_eq!(emu.cpu.gfx[30 * 64 + 0], 1);
    assert_eq!(emu.cpu.gfx[30 * 64 + 1], 1);
    assert_eq!(emu.cpu.gfx[31 * 64 + 62], 1);
    assert_eq!(emu.cpu.gfx[31 * 64 + 63], 0);
    assert_eq!(emu.cpu.gfx[2 * 64 + 0], 1);
    assert_eq!(emu.cpu.gfx[2 * 64 + 1], 1);
    assert_eq!(emu.cpu.gfx[3 * 64 + 0], 0);
}

#[test]
fn draw_sprite_reports_collision_only_where_a_lit_pixel_goes_dark() {
    let mut cpu = CPU::new(&[0xFF]);
    // I is 0; put a one-row sprite 0b1000_0001 at address 0
    cpu.ram[0] = 0x81;
    cpu.gfx[5] = 1;
    draw_sprite(&mut cpu, 0, 0, 1);
    assert_eq!(cpu.v[15], 0);
    assert_eq!(cpu.gfx[0], 1);
    assert_eq!(cpu.gfx[7], 1);
    assert_eq!(cpu.gfx[5], 1);
    draw_sprite(&mut cpu, 0, 0, 1);
    assert_eq!(cpu.v[15], 1);
    assert_eq!(cpu.gfx[0], 0);
    assert_eq!(cpu.gfx[7], 0);
    assert_eq!(cpu.gfx[5], 1);
}

#[test]
fn draw_sprite_taller_than_the_screen_flips_twice() {
    let mut cpu = CPU::new(&[]);
    // 33 rows of 0x80 at I = 0: rows 0 and 32 land on the same display row
    for a in 0..33 {
        cpu.ram[a] = 0x80;
    }
    draw_sprite(&mut cpu, 0, 0, 33);
    assert_eq!(cpu.gfx[0], 0);
    assert_eq!(cpu.gfx[64], 1);
    assert_eq!(cpu.v[15], 1);
}

#[test]
fn clear_screen_blanks_the_display() {
    let mut emu = emulator_with(&[0x00, 0xE0, 0x12, 0x02]);
    emu.cpu.gfx[100] = 1;
    emu.cpu.gfx[2047] = 1;
    run_once(&mut emu);
    assert!(emu.cpu.gfx.iter().all(|&p| p == 0));
}

#[test]
fn unknown_opcode_ends_the_block() {
    // 6001; 0123 (unknown); 6102
    let mut emu = emulator_with(&[0x60, 0x01, 0x01, 0x23, 0x61, 0x02]);
    run_once(&mut emu);
    assert_eq!(emu.cpu.pc, 0x204);
    assert_eq!(emu.cpu.v[1], 0);
    run_once(&mut emu);
    assert_eq!(emu.cpu.v[1], 2);
}

#[test]
fn blocks_stop_at_512_instructions() {
    // 600 times 7001 (V0 += 1): one execute runs 512 of them
    let mut program = Vec::new();
    for _ in 0..600 {
        program.extend_from_slice(&[0x70, 0x01]);
    }
    let mut emu = emulator_with(&program);
    run_once(&mut emu);
    assert_eq!(emu.cpu.pc, 0x200 + 2 * 512);
    assert_eq!(emu.cpu.v[0], 0);
    // count the instructions that ran: V0 = 1, then I += V0 for the rest
    let mut program = vec![0x60, 0x01];
    for _ in 0..600 {
        program.extend_from_slice(&[0xF0, 0x1E]);
    }
    let mut emu = emulator_with(&program);
    run_once(&mut emu);
    assert_eq!(emu.cpu.i, 511);
}

#[test]
fn blocks_stop_at_the_end_of_ram() {
    // fill RAM from 0x200 with 6005 up to the end; the last execute stops at 0x1000
    let program = [0x60u8, 0x05].repeat(0xE00 / 2);
    let mut emu = emulator_with(&program);
    for _ in 0..3 {
        run_once(&mut emu);
    }
    assert_eq!(emu.cpu.pc, 0x200 + 3 * 1024);
    run_once(&mut emu);
    assert_eq!(emu.cpu.pc, 0x1000);
    // pc & 0x0FFE starts the next block at address 0, where RAM holds zeros
    // (0000 is an unknown opcode): it runs one instruction
    run_once(&mut emu);
    assert_eq!(emu.cpu.pc, 0x002);
}

#[test]
fn cached_block_is_reused_after_ram_changes() {
    // 6005; 1200
    let mut emu = emulator_with(&[0x60, 0x05, 0x12, 0x00]);
    run_once(&mut emu);
    assert_eq!(emu.cpu.v[0], 5);
    // overwrite the program: the cached block still runs
    emu.load(&[0x60, 0x09, 0x12, 0x00]);
    run_once(&mut emu);
    assert_eq!(emu.cpu.v[0], 5);
    // a fresh machine sees the new program
    let mut fresh = emulator_with(&[0x60, 0x09, 0x12, 0x00]);
    run_once(&mut fresh);
    assert_eq!(fresh.cpu.v[0], 9);
}

#[test]
fn store_registers_past_ram_runs_into_the_display() {
    // V0 = 1, V1 = 2, V2 = 3; AFFE; F255 -> ram[FFE] = 1, ram[FFF] = 2, gfx[0] = 3
    let mut emu = emulator_with(&[0x60, 0x01, 0x61, 0x02, 0x62, 0x03, 0xAF, 0xFE, 0xF2, 0x55, 0x12, 0x00]);
    run_once(&mut emu);
    assert_eq!(emu.cpu.ram[0xFFE], 1);
    assert_eq!(emu.cpu.ram[0xFFF], 2);
    assert_eq!(emu.cpu.gfx[0], 3);
}

#[test]
fn font_address_points_at_the_glyph() {
    // V0 = 0x3B: glyph B; F029
    let mut emu = emulator_with(&[0x60, 0x3B, 0xF0, 0x29, 0x12, 0x00]);
    run_once(&mut emu);
    let i = emu.cpu.i as usize;
    assert_eq!(i, 0x50 + 5 * 0xB);
    assert_eq!(&emu.cpu.ram[i..i + 5], &FONT_SET[5 * 0xB..5 * 0xB + 5]);
}

#[test]
fn registers_come_back_after_other_work_between_store_and_load() {
    // V0..V2 = 5,6,7; A500; F255; then V0..V2 = 1; 7005; I unchanged; F265
    let mut emu = emulator_with(&[
        0x60, 0x05, 0x61, 0x06, 0x62, 0x07, 0xA5, 0x00, 0xF2, 0x55, 0x60, 0x01, 0x61, 0x01,
        0x62, 0x01, 0x70, 0x05, 0x81, 0x04, 0xF2, 0x65, 0x12, 0x00,
    ]);
    run_once(&mut emu);
    assert_eq!(&emu.cpu.ram[0x500..0x503], &[5, 6, 7]);
    assert_eq!(emu.cpu.ram[0x503], 0);
    assert_eq!(&emu.cpu.v[0..3], &[5, 6, 7]);
    assert_eq!(emu.cpu.i, 0x500);
}

#[test]
fn a_block_that_clears_the_screen_twice_does_not_compile() {
    let emu = emulator_with(&[0x00, 0xE0, 0x60, 0x01, 0x00, 0xE0, 0x12, 0x00]);
    assert!(!emu.cpu.next_block_compiles());
}

#[test]
fn a_block_that_clears_the_screen_once_compiles() {
    let mut emu = emulator_with(&[0x00, 0xE0, 0x60, 0x01, 0x12, 0x04, 0x00, 0xE0, 0x00, 0xE0]);
    assert!(emu.cpu.next_block_compiles());
    run_once(&mut emu);
    assert_eq!(emu.cpu.pc, 0x204);
    assert_eq!(emu.cpu.v[0], 1);
    // the block at 0x204 jumps to itself; the two clears after it are never reached
    assert!(emu.cpu.next_block_compiles());
    run_once(&mut emu);
    assert!(emu.cpu.next_block_compiles());
}

#[test]
fn a_cached_block_always_runs_again() {
    let mut emu = emulator_with(&[0x00, 0xE0, 0x12, 0x00]);
    run_once(&mut emu);
    assert_eq!(emu.cpu.pc, 0x200);
    // RAM now holds two clears in the block at 0x200, but the cached block runs
    emu.cpu.ram[0x202] = 0x00;
    emu.cpu.ram[0x203] = 0xE0;
    assert!(emu.cpu.next_block_compiles());
}
