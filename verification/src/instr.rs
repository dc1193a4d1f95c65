use vstd::prelude::*;

verus! {

/// A decoded CHIP-8 instruction. `x` and `y` name registers (0..16), `kk` is
/// an 8-bit immediate, `n` a 4-bit immediate and `addr` a 12-bit address.
#[derive(Clone, Copy, Debug, PartialEq, Eq, Structural)]
pub enum Instr {
    /// 00E0
    ClearScreen,
    /// 00EE
    Return,
    /// 1NNN
    Jump { addr: u16 },
    /// 2NNN
    Call { addr: u16 },
    /// 3XKK
    SkipEqImm { x: u8, kk: u8 },
    /// 4XKK
    SkipNeImm { x: u8, kk: u8 },
    /// 5XY_
    SkipEqReg { x: u8, y: u8 },
    /// 6XKK
    LoadImm { x: u8, kk: u8 },
    /// 7XKK
    AddImm { x: u8, kk: u8 },
    /// 8XY0
    Move { x: u8, y: u8 },
    /// 8XY1
    Or { x: u8, y: u8 },
    /// 8XY2
    And { x: u8, y: u8 },
    /// 8XY3
    Xor { x: u8, y: u8 },
    /// 8XY4
    AddReg { x: u8, y: u8 },
    /// 8XY5
    SubReg { x: u8, y: u8 },
    /// 8XY6
    ShiftRight { x: u8 },
    /// 8XY7
    SubReverse { x: u8, y: u8 },
    /// 8XYE
    ShiftLeft { x: u8 },
    /// 9XY_
    SkipNeReg { x: u8, y: u8 },
    /// ANNN
    LoadIndex { addr: u16 },
    /// BNNN
    JumpOffset { addr: u16 },
    /// CXKK
    Random { x: u8, kk: u8 },
    /// DXYN
    Draw { x: u8, y: u8, n: u8 },
    /// EX9E
    SkipKeyPressed { x: u8 },
    /// EXA1
    SkipKeyReleased { x: u8 },
    /// FX07: the delay timer into Vx
    LoadDelay { x: u8 },
    /// FX0A: wait for a key, then its number into Vx
    WaitKey { x: u8 },
    /// FX15: Vx into the delay timer
    SetDelay { x: u8 },
    /// FX18: Vx into the sound timer
    SetSound { x: u8 },
    /// FX1E
    AddIndex { x: u8 },
    /// FX29
    FontAddress { x: u8 },
    /// FX33
    StoreBcd { x: u8 },
    /// FX55
    StoreRegs { x: u8 },
    /// FX65
    LoadRegs { x: u8 },
    /// Any other opcode: it changes nothing but the program counter and ends
    /// a block.
    Unknown,
}

/// The instruction word at `addr`: the byte there is the high byte.
pub open spec fn spec_fetch(ram: Seq<u8>, addr: int) -> u16 {
    (ram[addr] * 256 + ram[addr + 1]) as u16
}

/// What an opcode means.
pub open spec fn spec_decode(op: u16) -> Instr {
    let hi = op / 4096;
    let x = ((op / 256) % 16) as u8;
    let y = ((op / 16) % 16) as u8;
    let n = (op % 16) as u8;
    let kk = (op % 256) as u8;
    let addr = (op % 4096) as u16;
    if hi == 0 {
        if kk == 0xE0 {
            Instr::ClearScreen
        } else if kk == 0xEE {
            Instr::Return
        } else {
            Instr::Unknown
        }
    } else if hi == 1 {
        Instr::Jump { addr }
    } else if hi == 2 {
        Instr::Call { addr }
    } else if hi == 3 {
        Instr::SkipEqImm { x, kk }
    } else if hi == 4 {
        Instr::SkipNeImm { x, kk }
    } else if hi == 5 {
        Instr::SkipEqReg { x, y }
    } else if hi == 6 {
        Instr::LoadImm { x, kk }
    } else if hi == 7 {
        Instr::AddImm { x, kk }
    } else if hi == 8 {
        if n == 0 {
            Instr::Move { x, y }
        } else if n == 1 {
            Instr::Or { x, y }
        } else if n == 2 {
            Instr::And { x, y }
        } else if n == 3 {
            Instr::Xor { x, y }
        } else if n == 4 {
            Instr::AddReg { x, y }
        } else if n == 5 {
            Instr::SubReg { x, y }
        } else if n == 6 {
            Instr::ShiftRight { x }
        } else if n == 7 {
            Instr::SubReverse { x, y }
        } else if n == 0xE {
            Instr::ShiftLeft { x }
        } else {
            Instr::Unknown
        }
    } else if hi == 9 {
        Instr::SkipNeReg { x, y }
    } else if hi == 0xA {
        Instr::LoadIndex { addr }
    } else if hi == 0xB {
        Instr::JumpOffset { addr }
    } else if hi == 0xC {
        Instr::Random { x, kk }
    } else if hi == 0xD {
        Instr::Draw { x, y, n }
    } else if hi == 0xE {
        if kk == 0x9E {
            Instr::SkipKeyPressed { x }
        } else if kk == 0xA1 {
            Instr::SkipKeyReleased { x }
        } else {
            Instr::Unknown
        }
    } else {
        if kk == 0x07 {
            Instr::LoadDelay { x }
        } else if kk == 0x0A {
            Instr::WaitKey { x }
        } else if kk == 0x15 {
            Instr::SetDelay { x }
        } else if kk == 0x18 {
            Instr::SetSound { x }
        } else if kk == 0x1E {
            Instr::AddIndex { x }
        } else if kk == 0x29 {
            Instr::FontAddress { x }
        } else if kk == 0x33 {
            Instr::StoreBcd { x }
        } else if kk == 0x55 {
            Instr::StoreRegs { x }
        } else if kk == 0x65 {
            Instr::LoadRegs { x }
        } else {
            Instr::Unknown
        }
    }
}

/// Instructions that may change the program counter (or stop on an opcode
/// they do not know): a block of straight-line code ends with one of them.
pub open spec fn spec_is_terminator(ins: Instr) -> bool {
    match ins {
        Instr::Return | Instr::Jump { .. } | Instr::Call { .. } | Instr::SkipEqImm { .. }
        | Instr::SkipNeImm { .. } | Instr::SkipEqReg { .. } | Instr::SkipNeReg { .. }
        | Instr::JumpOffset { .. } | Instr::SkipKeyPressed { .. } | Instr::SkipKeyReleased {
            ..
        } | Instr::WaitKey { .. } | Instr::Unknown => true,
        _ => false,
    }
}

/// Every register operand of an instruction names one of the sixteen
/// registers, and every `n` is a nibble.
pub open spec fn operands_in_range(ins: Instr) -> bool {
    match ins {
        Instr::SkipEqImm { x, .. } | Instr::SkipNeImm { x, .. } | Instr::LoadImm { x, .. }
        | Instr::AddImm { x, .. } | Instr::ShiftRight { x } | Instr::ShiftLeft { x }
        | Instr::Random { x, .. } | Instr::SkipKeyPressed { x } | Instr::SkipKeyReleased { x }
        | Instr::LoadDelay { x } | Instr::WaitKey { x } | Instr::SetDelay { x }
        | Instr::SetSound { x } | Instr::AddIndex { x } | Instr::FontAddress { x }
        | Instr::StoreBcd { x } | Instr::StoreRegs { x } | Instr::LoadRegs { x } => x < 16,
        Instr::SkipEqReg { x, y } | Instr::Move { x, y } | Instr::Or { x, y } | Instr::And {
            x,
            y,
        } | Instr::Xor { x, y } | Instr::AddReg { x, y } | Instr::SubReg { x, y }
        | Instr::SubReverse { x, y } | Instr::SkipNeReg { x, y } => x < 16 && y < 16,
        Instr::Draw { x, y, n } => x < 16 && y < 16 && n < 16,
        _ => true,
    }
}

/// Splits an opcode into its instruction.
pub fn decode(op: u16) -> (ins: Instr)
    ensures
        ins == spec_decode(op),
        operands_in_range(ins),
{
    let hi = op / 4096;
    let x = ((op / 256) % 16) as u8;
    let y = ((op / 16) % 16) as u8;
    let n = (op % 16) as u8;
    let kk = (op % 256) as u8;
    let addr = op % 4096;
    match hi {
        0 => {
            if kk == 0xE0 {
                Instr::ClearScreen
            } else if kk == 0xEE {
                Instr::Return
            } else {
                Instr::Unknown
            }
        },
        1 => Instr::Jump { addr },
        2 => Instr::Call { addr },
        3 => Instr::SkipEqImm { x, kk },
        4 => Instr::SkipNeImm { x, kk },
        5 => Instr::SkipEqReg { x, y },
        6 => Instr::LoadImm { x, kk },
        7 => Instr::AddImm { x, kk },
        8 => match n {
            0 => Instr::Move { x, y },
            1 => Instr::Or { x, y },
            2 => Instr::And { x, y },
            3 => Instr::Xor { x, y },
            4 => Instr::AddReg { x, y },
            5 => Instr::SubReg { x, y },
            6 => Instr::ShiftRight { x },
            7 => Instr::SubReverse { x, y },
            0xE => Instr::ShiftLeft { x },
            _ => Instr::Unknown,
        },
        9 => Instr::SkipNeReg { x, y },
        0xA => Instr::LoadIndex { addr },
        0xB => Instr::JumpOffset { addr },
        0xC => Instr::Random { x, kk },
        0xD => Instr::Draw { x, y, n },
        0xE => {
            if kk == 0x9E {
                Instr::SkipKeyPressed { x }
            } else if kk == 0xA1 {
                Instr::SkipKeyReleased { x }
            } else {
                Instr::Unknown
            }
        },
        _ => match kk {
            0x07 => Instr::LoadDelay { x },
            0x0A => Instr::WaitKey { x },
            0x15 => Instr::SetDelay { x },
            0x18 => Instr::SetSound { x },
            0x1E => Instr::AddIndex { x },
            0x29 => Instr::FontAddress { x },
            0x33 => Instr::StoreBcd { x },
            0x55 => Instr::StoreRegs { x },
            0x65 => Instr::LoadRegs { x },
            _ => Instr::Unknown,
        },
    }
}

/// Whether an instruction ends a block.
pub fn is_terminator(ins: Instr) -> (r: bool)
    ensures
        r == spec_is_terminator(ins),
{
    match ins {
        Instr::Return | Instr::Jump { .. } | Instr::Call { .. } | Instr::SkipEqImm { .. }
        | Instr::SkipNeImm { .. } | Instr::SkipEqReg { .. } | Instr::SkipNeReg { .. }
        | Instr::JumpOffset { .. } | Instr::SkipKeyPressed { .. } | Instr::SkipKeyReleased {
            ..
        } | Instr::WaitKey { .. } | Instr::Unknown => true,
        _ => false,
    }
}

} // verus!
