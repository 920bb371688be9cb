use chip8_cpu::instruction::Instruction;
use chip8_cpu::instruction::convert_op;

#[test]
fn test_conv_addo() {
    let instr = convert_op(0x7532);
    assert_eq!(instr, Instruction::AddO { reg: 5, byte: 0x32 })
}

#[test]
fn test_conv_jmp() {
    let instr = convert_op(0x1501);
    assert_eq!(instr, Instruction::Jmp { location: 0x501 })
}

#[test]
fn test_conv_binop() {
    // All bin ops are handled the same way
    let instr = convert_op(0x8354);
    assert_eq!(instr, Instruction::Add { regx: 0x3, regy: 0x5 })
}

#[test]
fn test_conv_sne() {
    let instr = convert_op(0x9260);
    assert_eq!(instr, Instruction::Sne { regx: 0x2, regy: 0x6 });
}

#[test]
fn test_conv_ld_i() {
    let instr = convert_op(0xA400);
    assert_eq!(instr, Instruction::LdI { loc: 0x400 });
}

#[test]
fn test_conv_jmp_a() {
    let instr = convert_op(0xB400);
    assert_eq!(instr, Instruction::JmpA { loc: 0x400 });
}

#[test]
fn test_conv_fx() {
    let instr = convert_op(0xF31E);
    assert_eq!(instr, Instruction::AddI { reg: 3 })
}

#[test]
fn test_conv_field_extractors() {
    assert_eq!(chip8_cpu::instruction::high(0xF123), 0xF);
    assert_eq!(chip8_cpu::instruction::low(0xF123), 0x3);
    assert_eq!(chip8_cpu::instruction::x(0xF123), 0x1);
    assert_eq!(chip8_cpu::instruction::y(0xF123), 0x2);
    assert_eq!(chip8_cpu::instruction::kk(0xF123), 0x23);
    assert_eq!(chip8_cpu::instruction::nnn(0xF123), 0x123);
}

#[test]
fn test_conv_unknown_patterns() {
    // Unmatched bit patterns decode to Unknown, never an error.
    assert_eq!(convert_op(0x0123), Instruction::Unknown);
    assert_eq!(convert_op(0x8008), Instruction::Unknown);
    assert_eq!(convert_op(0xE000), Instruction::Unknown);
    assert_eq!(convert_op(0xF000), Instruction::Unknown);
    assert_eq!(convert_op(0xFFFF), Instruction::Unknown);
}

#[test]
fn test_conv_total_over_groups() {
    // Decoding is total: every group nibble yields some variant. A
    // sweep over the whole opcode space exercises each dispatch path.
    let mut count: u32 = 0;
    let mut op: u32 = 0;
    while op <= 0xFFFF {
        let _ = convert_op(op as u16);
        count += 1;
        op += 1;
    }
    assert_eq!(count, 0x10000);
}

#[test]
fn test_conv_full_table() {
    assert_eq!(convert_op(0x00E0), Instruction::Clear);
    assert_eq!(convert_op(0x00EE), Instruction::Ret);
    assert_eq!(convert_op(0x2ABC), Instruction::Call { location: 0xABC });
    assert_eq!(convert_op(0x3A42), Instruction::ConstantSe { reg: 0xA, byte: 0x42 });
    assert_eq!(convert_op(0x4A42), Instruction::ConstantSne { reg: 0xA, byte: 0x42 });
    assert_eq!(convert_op(0x5AB0), Instruction::Se { x: 0xA, y: 0xB });
    assert_eq!(convert_op(0x6A42), Instruction::SetImm { reg: 0xA, byte: 0x42 });
    assert_eq!(convert_op(0x8AB0), Instruction::Load { regx: 0xA, regy: 0xB });
    assert_eq!(convert_op(0x8AB1), Instruction::Or { regx: 0xA, regy: 0xB });
    assert_eq!(convert_op(0x8AB2), Instruction::And { regx: 0xA, regy: 0xB });
    assert_eq!(convert_op(0x8AB3), Instruction::Xor { regx: 0xA, regy: 0xB });
    assert_eq!(convert_op(0x8AB5), Instruction::Sub { regx: 0xA, regy: 0xB });
    assert_eq!(convert_op(0x8AB6), Instruction::Shr { reg: 0xA });
    assert_eq!(convert_op(0x8AB7), Instruction::Subn { regx: 0xA, regy: 0xB });
    assert_eq!(convert_op(0x8ABE), Instruction::Shl { reg: 0xA });
    assert_eq!(convert_op(0xCA42), Instruction::Random { reg: 0xA, byte: 0x42 });
    assert_eq!(convert_op(0xDAB5), Instruction::Draw { x: 0xA, y: 0xB, n: 5 });
    assert_eq!(convert_op(0xEA9E), Instruction::Skp { key: 0xA });
    assert_eq!(convert_op(0xEAA1), Instruction::Sknp { key: 0xA });
    assert_eq!(convert_op(0xFA07), Instruction::LdDelay { reg: 0xA });
    assert_eq!(convert_op(0xFA15), Instruction::SetDelay { reg: 0xA });
    assert_eq!(convert_op(0xFA29), Instruction::LdFont { reg: 0xA });
    assert_eq!(convert_op(0xFA33), Instruction::LdB { reg: 0xA });
    assert_eq!(convert_op(0xFA55), Instruction::SetLong { reg: 0xA });
    assert_eq!(convert_op(0xFA65), Instruction::LdLong { reg: 0xA });
}
