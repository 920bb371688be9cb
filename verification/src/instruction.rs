use vstd::prelude::*;

verus! {

/// The decoded, semantically tagged form of a raw 16-bit opcode.
///
/// Register fields (`reg`, `regx`, `regy`, `x`, `y`, `key`) are 4-bit
/// register indices, `byte` is an 8-bit immediate, `location`/`loc` is a
/// 12-bit address, and `n` (in `Draw`) is a 4-bit sprite height.
#[derive(PartialEq, Eq, Structural, Clone, Copy, Debug)]
pub enum Instruction {
    /// PC = location
    Jmp { location: u16 },
    /// Push the return address, PC = location
    Call { location: u16 },
    /// Pop the return address into PC
    Ret,
    /// Skip the next instruction if V[x] == V[y]
    Se { x: u8, y: u8 },
    /// V[reg] += byte (8-bit wraparound, flags untouched)
    AddO { reg: u8, byte: u8 },
    /// V[regx] = V[regy]
    Load { regx: u8, regy: u8 },
    /// V[regx] |= V[regy]
    Or { regx: u8, regy: u8 },
    /// V[regx] ^= V[regy]
    Xor { regx: u8, regy: u8 },
    /// V[regx] &= V[regy]
    And { regx: u8, regy: u8 },
    /// V[regx] += V[regy]; VF = carry
    Add { regx: u8, regy: u8 },
    /// V[regx] -= V[regy]; VF = 1 when no borrow
    Sub { regx: u8, regy: u8 },
    /// VF = lsb(V[reg]); V[reg] >>= 1
    Shr { reg: u8 },
    /// V[regx] = V[regy] - V[regx]; VF = 1 when no borrow
    Subn { regx: u8, regy: u8 },
    /// VF = msb(V[reg]); V[reg] <<= 1 (8-bit truncation)
    Shl { reg: u8 },
    /// Skip the next instruction if V[reg] == byte
    ConstantSe { reg: u8, byte: u8 },
    /// Skip the next instruction if V[reg] != byte
    ConstantSne { reg: u8, byte: u8 },
    /// Skip the next instruction if V[regx] != V[regy]
    Sne { regx: u8, regy: u8 },
    /// I = loc
    LdI { loc: u16 },
    /// PC = V[0] + loc
    JmpA { loc: u16 },
    /// I += V[reg] (16-bit wraparound)
    AddI { reg: u8 },
    /// memory[I..I+3] = decimal digits of V[reg]
    LdB { reg: u8 },
    /// I = address of the font glyph for V[reg]
    LdFont { reg: u8 },
    /// V[0..reg+1] = memory[I..I+reg+1]
    LdLong { reg: u8 },
    /// memory[I..I+reg+1] = V[0..reg+1]
    SetLong { reg: u8 },
    /// V[reg] = byte
    SetImm { reg: u8, byte: u8 },
    /// V[reg] = delay timer
    LdDelay { reg: u8 },
    /// delay timer = V[reg]
    SetDelay { reg: u8 },
    /// Skip the next instruction if key V[key] is held
    Skp { key: u8 },
    /// Skip the next instruction if key V[key] is not held
    Sknp { key: u8 },
    /// V[reg] = random byte & byte
    Random { reg: u8, byte: u8 },
    /// XOR an n-row sprite from memory[I..] at (V[x], V[y]); VF = collision
    Draw { x: u8, y: u8, n: u16 },
    /// Blank the display buffer
    Clear,
    /// Any bit pattern outside the opcode table; executed as a no-op
    Unknown,
}

/// Group nibble of an opcode: bits 12-15.
pub open spec fn spec_high(op: u16) -> u16 {
    (op & 0xF000) >> 12
}

/// Trailing nibble of an opcode: bits 0-3.
pub open spec fn spec_low(op: u16) -> u16 {
    op & 0xF
}

/// First register field of an opcode: bits 8-11.
pub open spec fn spec_x(op: u16) -> u8 {
    ((op & 0x0F00) >> 8) as u8
}

/// Second register field of an opcode: bits 4-7.
pub open spec fn spec_y(op: u16) -> u8 {
    ((op & 0x00F0) >> 4) as u8
}

/// Immediate byte of an opcode: bits 0-7.
pub open spec fn spec_kk(op: u16) -> u8 {
    (op & 0x00FF) as u8
}

/// Address field of an opcode: bits 0-11.
pub open spec fn spec_nnn(op: u16) -> u16 {
    op & 0x0FFF
}

/// The full opcode table as a pure, total function on the raw word.
pub open spec fn spec_decode(op: u16) -> Instruction {
    let x = spec_x(op);
    let y = spec_y(op);
    let kk = spec_kk(op);
    let nnn = spec_nnn(op);
    let n = spec_low(op);
    if spec_high(op) == 0x0 {
        if n == 0x0 {
            Instruction::Clear
        } else if n == 0xE {
            Instruction::Ret
        } else {
            Instruction::Unknown
        }
    } else if spec_high(op) == 0x1 {
        Instruction::Jmp { location: nnn }
    } else if spec_high(op) == 0x2 {
        Instruction::Call { location: nnn }
    } else if spec_high(op) == 0x3 {
        Instruction::ConstantSe { reg: x, byte: kk }
    } else if spec_high(op) == 0x4 {
        Instruction::ConstantSne { reg: x, byte: kk }
    } else if spec_high(op) == 0x5 {
        Instruction::Se { x, y }
    } else if spec_high(op) == 0x6 {
        Instruction::SetImm { reg: x, byte: kk }
    } else if spec_high(op) == 0x7 {
        Instruction::AddO { reg: x, byte: kk }
    } else if spec_high(op) == 0x8 {
        if n == 0x0 {
            Instruction::Load { regx: x, regy: y }
        } else if n == 0x1 {
            Instruction::Or { regx: x, regy: y }
        } else if n == 0x2 {
            Instruction::And { regx: x, regy: y }
        } else if n == 0x3 {
            Instruction::Xor { regx: x, regy: y }
        } else if n == 0x4 {
            Instruction::Add { regx: x, regy: y }
        } else if n == 0x5 {
            Instruction::Sub { regx: x, regy: y }
        } else if n == 0x6 {
            Instruction::Shr { reg: x }
        } else if n == 0x7 {
            Instruction::Subn { regx: x, regy: y }
        } else if n == 0xE {
            Instruction::Shl { reg: x }
        } else {
            Instruction::Unknown
        }
    } else if spec_high(op) == 0x9 {
        Instruction::Sne { regx: x, regy: y }
    } else if spec_high(op) == 0xA {
        Instruction::LdI { loc: nnn }
    } else if spec_high(op) == 0xB {
        Instruction::JmpA { loc: nnn }
    } else if spec_high(op) == 0xC {
        Instruction::Random { reg: x, byte: kk }
    } else if spec_high(op) == 0xD {
        Instruction::Draw { x, y, n }
    } else if spec_high(op) == 0xE {
        if kk == 0x9E {
            Instruction::Skp { key: x }
        } else if kk == 0xA1 {
            Instruction::Sknp { key: x }
        } else {
            Instruction::Unknown
        }
    } else {
        if kk == 0x07 {
            Instruction::LdDelay { reg: x }
        } else if kk == 0x15 {
            Instruction::SetDelay { reg: x }
        } else if kk == 0x1E {
            Instruction::AddI { reg: x }
        } else if kk == 0x29 {
            Instruction::LdFont { reg: x }
        } else if kk == 0x33 {
            Instruction::LdB { reg: x }
        } else if kk == 0x55 {
            Instruction::SetLong { reg: x }
        } else if kk == 0x65 {
            Instruction::LdLong { reg: x }
        } else {
            Instruction::Unknown
        }
    }
}

/// A decoded instruction is well formed when every register index fits the
/// 16-register file, every address fits in 12 bits, and a sprite height
/// fits in a nibble. `spec_decode` only produces well-formed instructions.
pub open spec fn wf_instruction(instr: Instruction) -> bool {
    match instr {
        Instruction::Jmp { location } => location <= 0xFFF,
        Instruction::Call { location } => location <= 0xFFF,
        Instruction::LdI { loc } => loc <= 0xFFF,
        Instruction::JmpA { loc } => loc <= 0xFFF,
        Instruction::Se { x, y } => x < 16 && y < 16,
        Instruction::AddO { reg, .. } => reg < 16,
        Instruction::Load { regx, regy } => regx < 16 && regy < 16,
        Instruction::Or { regx, regy } => regx < 16 && regy < 16,
        Instruction::Xor { regx, regy } => regx < 16 && regy < 16,
        Instruction::And { regx, regy } => regx < 16 && regy < 16,
        Instruction::Add { regx, regy } => regx < 16 && regy < 16,
        Instruction::Sub { regx, regy } => regx < 16 && regy < 16,
        Instruction::Shr { reg } => reg < 16,
        Instruction::Subn { regx, regy } => regx < 16 && regy < 16,
        Instruction::Shl { reg } => reg < 16,
        Instruction::ConstantSe { reg, .. } => reg < 16,
        Instruction::ConstantSne { reg, .. } => reg < 16,
        Instruction::Sne { regx, regy } => regx < 16 && regy < 16,
        Instruction::AddI { reg } => reg < 16,
        Instruction::LdB { reg } => reg < 16,
        Instruction::LdFont { reg } => reg < 16,
        Instruction::LdLong { reg } => reg < 16,
        Instruction::SetLong { reg } => reg < 16,
        Instruction::SetImm { reg, .. } => reg < 16,
        Instruction::LdDelay { reg } => reg < 16,
        Instruction::SetDelay { reg } => reg < 16,
        Instruction::Random { reg, .. } => reg < 16,
        Instruction::Skp { key } => key < 16,
        Instruction::Sknp { key } => key < 16,
        Instruction::Draw { x, y, n } => x < 16 && y < 16 && n <= 15,
        _ => true,
    }
}

/// Every decoded instruction is well formed.
pub proof fn lemma_decode_wf(op: u16)
    ensures
        wf_instruction(spec_decode(op)),
{
    assert((((op & 0x0F00) >> 8) as u8) < 16) by (bit_vector);
    assert((((op & 0x00F0) >> 4) as u8) < 16) by (bit_vector);
    assert((op & 0xF) <= 15) by (bit_vector);
    assert((op & 0x0FFF) <= 0xFFF) by (bit_vector);
}

/// Group nibble of `op`: bits 12-15.
pub fn high(op: u16) -> (r: u16)
    ensures
        r == spec_high(op),
{
    (op & 0xF000) >> 12
}

/// Trailing nibble of `op`: bits 0-3.
pub fn low(op: u16) -> (r: u16)
    ensures
        r == spec_low(op),
{
    op & 0xF
}

/// First register field of `op`: bits 8-11.
pub fn x(op: u16) -> (r: u8)
    ensures
        r == spec_x(op),
{
    ((op & 0x0F00) >> 8) as u8
}

/// Second register field of `op`: bits 4-7.
pub fn y(op: u16) -> (r: u8)
    ensures
        r == spec_y(op),
{
    ((op & 0x00F0) >> 4) as u8
}

/// Immediate byte of `op`: bits 0-7.
pub fn kk(op: u16) -> (r: u8)
    ensures
        r == spec_kk(op),
{
    (op & 0x00FF) as u8
}

/// Address field of `op`: bits 0-11.
pub fn nnn(op: u16) -> (r: u16)
    ensures
        r == spec_nnn(op),
{
    op & 0x0FFF
}

/// Decode a raw 16-bit opcode into its tagged instruction.
///
/// Total: every input yields a variant, with unmatched bit patterns mapped
/// to `Instruction::Unknown` rather than an error.
pub fn convert_op(op: u16) -> (r: Instruction)
    ensures
        r == spec_decode(op),
        wf_instruction(r),
{
    proof {
        lemma_decode_wf(op);
        assert((op & 0xF000) >> 12 <= 0xF) by (bit_vector);
    }
    match high(op) {
        0x0 => {
            match low(op) {
                0x0 => Instruction::Clear,
                0xE => Instruction::Ret,
                _ => Instruction::Unknown,
            }
        },
        0x1 => Instruction::Jmp { location: nnn(op) },
        0x2 => Instruction::Call { location: nnn(op) },
        0x3 => Instruction::ConstantSe { reg: x(op), byte: kk(op) },
        0x4 => Instruction::ConstantSne { reg: x(op), byte: kk(op) },
        0x5 => Instruction::Se { x: x(op), y: y(op) },
        0x6 => Instruction::SetImm { reg: x(op), byte: kk(op) },
        0x7 => Instruction::AddO { reg: x(op), byte: kk(op) },
        0x8 => {
            let rx: u8 = x(op);
            let ry: u8 = y(op);
            match low(op) {
                0x0 => Instruction::Load { regx: rx, regy: ry },
                0x1 => Instruction::Or { regx: rx, regy: ry },
                0x2 => Instruction::And { regx: rx, regy: ry },
                0x3 => Instruction::Xor { regx: rx, regy: ry },
                0x4 => Instruction::Add { regx: rx, regy: ry },
                0x5 => Instruction::Sub { regx: rx, regy: ry },
                0x6 => Instruction::Shr { reg: rx },
                0x7 => Instruction::Subn { regx: rx, regy: ry },
                0xE => Instruction::Shl { reg: rx },
                _ => Instruction::Unknown,
            }
        },
        0x9 => Instruction::Sne { regx: x(op), regy: y(op) },
        0xA => Instruction::LdI { loc: nnn(op) },
        0xB => Instruction::JmpA { loc: nnn(op) },
        0xC => Instruction::Random { reg: x(op), byte: kk(op) },
        0xD => Instruction::Draw { x: x(op), y: y(op), n: low(op) },
        0xE => {
            match kk(op) {
                0x9E => Instruction::Skp { key: x(op) },
                0xA1 => Instruction::Sknp { key: x(op) },
                _ => Instruction::Unknown,
            }
        },
        0xF => {
            match kk(op) {
                0x07 => Instruction::LdDelay { reg: x(op) },
                0x15 => Instruction::SetDelay { reg: x(op) },
                0x1E => Instruction::AddI { reg: x(op) },
                0x29 => Instruction::LdFont { reg: x(op) },
                0x33 => Instruction::LdB { reg: x(op) },
                0x55 => Instruction::SetLong { reg: x(op) },
                0x65 => Instruction::LdLong { reg: x(op) },
                _ => Instruction::Unknown,
            }
        },
        _ => Instruction::Unknown,
    }
}

} // verus!
