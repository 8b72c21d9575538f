//! The NMOS 6510 instruction set: addressing modes, operations and the opcode
//! matrix.

use vstd::prelude::*;

verus! {

/// Addressing mode of a tracked memory access.
#[derive(Clone, Copy, Debug, PartialEq, Eq, PartialOrd, Ord, Hash, Structural)]
pub enum AddrMode {
    ZeroPage,
    ZeroPageX,
    ZeroPageY,
    Absolute,
    AbsoluteX,
    AbsoluteY,
    /// (zp,X) pre-indexed indirect
    IndirectX,
    /// (zp),Y post-indexed indirect
    IndirectY,
}

impl AddrMode {
    /// The two indirect-via-zero-page modes.
    pub open spec fn indirect(self) -> bool {
        self is IndirectX || self is IndirectY
    }

    /// True for the two indirect-via-zero-page modes. Decrunchers copy their output
    /// through these, which is why write-range analysis treats them specially.
    pub fn is_indirect(self) -> (b: bool)
        ensures
            b == self.indirect(),
    {
        match self {
            AddrMode::IndirectX | AddrMode::IndirectY => true,
            _ => false,
        }
    }

    /// The assembler-style spelling of the mode.
    pub open spec fn spelling(self) -> Seq<char> {
        match self {
            AddrMode::ZeroPage => "zp"@,
            AddrMode::ZeroPageX => "zp,x"@,
            AddrMode::ZeroPageY => "zp,y"@,
            AddrMode::Absolute => "abs"@,
            AddrMode::AbsoluteX => "abs,x"@,
            AddrMode::AbsoluteY => "abs,y"@,
            AddrMode::IndirectX => "(zp,x)"@,
            AddrMode::IndirectY => "(zp),y"@,
        }
    }

    /// The assembler-style spelling of the mode.
    pub fn name(self) -> (s: &'static str)
        ensures
            s@ == self.spelling(),
    {
        match self {
            AddrMode::ZeroPage => "zp",
            AddrMode::ZeroPageX => "zp,x",
            AddrMode::ZeroPageY => "zp,y",
            AddrMode::Absolute => "abs",
            AddrMode::AbsoluteX => "abs,x",
            AddrMode::AbsoluteY => "abs,y",
            AddrMode::IndirectX => "(zp,x)",
            AddrMode::IndirectY => "(zp),y",
        }
    }

    /// Position of the mode in declaration order, which is how modes compare.
    pub open spec fn rank_spec(self) -> u8 {
        match self {
            AddrMode::ZeroPage => 0,
            AddrMode::ZeroPageX => 1,
            AddrMode::ZeroPageY => 2,
            AddrMode::Absolute => 3,
            AddrMode::AbsoluteX => 4,
            AddrMode::AbsoluteY => 5,
            AddrMode::IndirectX => 6,
            AddrMode::IndirectY => 7,
        }
    }

    /// Position of the mode in declaration order, which is how modes compare.
    pub fn rank(self) -> (r: u8)
        ensures
            r == self.rank_spec(),
    {
        match self {
            AddrMode::ZeroPage => 0,
            AddrMode::ZeroPageX => 1,
            AddrMode::ZeroPageY => 2,
            AddrMode::Absolute => 3,
            AddrMode::AbsoluteX => 4,
            AddrMode::AbsoluteY => 5,
            AddrMode::IndirectX => 6,
            AddrMode::IndirectY => 7,
        }
    }
}

/// Operations that consume one operand byte.
#[derive(Clone, Copy, Debug, PartialEq, Eq, Structural)]
pub enum ReadOp {
    Lda,
    Ldx,
    Ldy,
    And,
    Ora,
    Eor,
    Bit,
    Adc,
    Sbc,
    Cmp,
    Cpx,
    Cpy,
    /// LDA + LDX
    Lax,
    /// A = X = SP = operand & SP
    Las,
    /// AND, then C = bit 7 of the result
    Anc,
    /// AND, then LSR A
    Alr,
    /// AND, then ROR A with C = bit 6 and V = bit 6 ^ bit 5
    Arr,
    /// X = (A & X) - operand, C like CMP
    Sbx,
    /// Unstable on silicon; the common model A = (A | $FF) & X & operand
    Ane,
}

/// Operations that store a register combination.
#[derive(Clone, Copy, Debug, PartialEq, Eq, Structural)]
pub enum StoreOp {
    Sta,
    Stx,
    Sty,
    /// A & X
    Sax,
}

/// Read-modify-write operations.
#[derive(Clone, Copy, Debug, PartialEq, Eq, Structural)]
pub enum RmwOp {
    Inc,
    Dec,
    Asl,
    Lsr,
    Rol,
    Ror,
    /// ASL, then ORA
    Slo,
    /// ROL, then AND
    Rla,
    /// LSR, then EOR
    Sre,
    /// ROR, then ADC (which sees the carry from the ROR)
    Rra,
    /// DEC, then CMP
    Dcp,
    /// INC, then SBC
    Isc,
}

/// Register-only operations.
#[derive(Clone, Copy, Debug, PartialEq, Eq, Structural)]
pub enum RegOp {
    Tax,
    Tay,
    Txa,
    Tya,
    Tsx,
    Txs,
    Inx,
    Dex,
    Iny,
    Dey,
}

/// Stores whose value is masked with a high address byte plus one.
#[derive(Clone, Copy, Debug, PartialEq, Eq, Structural)]
pub enum MaskedOp {
    /// A & X & mask
    Sha,
    /// X & mask
    Shx,
    /// Y & mask
    Shy,
}

/// A decoded instruction.
#[derive(Clone, Copy, Debug, PartialEq, Eq, Structural)]
pub enum Instr {
    /// Operand is the byte after the opcode.
    Immediate(ReadOp),
    /// Operand comes through an addressing mode.
    Read(ReadOp, AddrMode),
    Store(StoreOp, AddrMode),
    Modify(RmwOp, AddrMode),
    /// Shift or rotate of the accumulator.
    Accumulator(RmwOp),
    Register(RegOp),
    /// Set (true) or clear (false) the flag with this mask.
    SetFlag(u8, bool),
    /// Branch when the flag with this mask has this value.
    Branch(u8, bool),
    Pha,
    Pla,
    Php,
    Plp,
    Jmp,
    /// JMP (ind), with the NMOS page-wrap bug
    JmpIndirect,
    Jsr,
    Rts,
    Rti,
    Brk,
    Nop,
    NopImmediate,
    /// Reads through the mode and discards the value.
    NopRead(AddrMode),
    Masked(MaskedOp, AddrMode),
    /// SP = A & X; store SP & (base-high + 1) at abs,Y
    Tas,
    /// Halt the CPU for good.
    Jam,
}

impl Instr {
    /// The instruction touches memory through an addressing mode.
    pub open spec fn accesses_memory(self) -> bool {
        match self {
            Instr::Read(..)
            | Instr::Store(..)
            | Instr::Modify(..)
            | Instr::NopRead(_)
            | Instr::Masked(..)
            | Instr::Tas => true,
            _ => false,
        }
    }
}

/// Mode of the odd columns of the opcode matrix (low two bits 01 and 11).
pub open spec fn odd_column_mode(column: u8) -> AddrMode {
    match column {
        0 => AddrMode::IndirectX,
        1 => AddrMode::ZeroPage,
        3 => AddrMode::Absolute,
        4 => AddrMode::IndirectY,
        5 => AddrMode::ZeroPageX,
        6 => AddrMode::AbsoluteY,
        _ => AddrMode::AbsoluteX,
    }
}

/// Mode of the memory columns of the even part of the matrix.
pub open spec fn even_column_mode(column: u8) -> AddrMode {
    match column {
        1 => AddrMode::ZeroPage,
        3 => AddrMode::Absolute,
        5 => AddrMode::ZeroPageX,
        _ => AddrMode::AbsoluteX,
    }
}

/// Opcodes whose low two bits are 00: control flow, flags, Y and compares.
pub open spec fn control_opcode(row: u8, column: u8) -> Instr {
    if column == 0 {
        match row {
            0 => Instr::Brk,
            1 => Instr::Jsr,
            2 => Instr::Rti,
            3 => Instr::Rts,
            4 => Instr::NopImmediate,
            5 => Instr::Immediate(ReadOp::Ldy),
            6 => Instr::Immediate(ReadOp::Cpy),
            _ => Instr::Immediate(ReadOp::Cpx),
        }
    } else if column == 2 {
        match row {
            0 => Instr::Php,
            1 => Instr::Plp,
            2 => Instr::Pha,
            3 => Instr::Pla,
            4 => Instr::Register(RegOp::Dey),
            5 => Instr::Register(RegOp::Tay),
            6 => Instr::Register(RegOp::Iny),
            _ => Instr::Register(RegOp::Inx),
        }
    } else if column == 4 {
        match row {
            0 => Instr::Branch(0x80, false),
            1 => Instr::Branch(0x80, true),
            2 => Instr::Branch(0x40, false),
            3 => Instr::Branch(0x40, true),
            4 => Instr::Branch(0x01, false),
            5 => Instr::Branch(0x01, true),
            6 => Instr::Branch(0x02, false),
            _ => Instr::Branch(0x02, true),
        }
    } else if column == 6 {
        match row {
            0 => Instr::SetFlag(0x01, false),
            1 => Instr::SetFlag(0x01, true),
            2 => Instr::SetFlag(0x04, false),
            3 => Instr::SetFlag(0x04, true),
            4 => Instr::Register(RegOp::Tya),
            5 => Instr::SetFlag(0x40, false),
            6 => Instr::SetFlag(0x08, false),
            _ => Instr::SetFlag(0x08, true),
        }
    } else if row == 2 && column == 3 {
        Instr::Jmp
    } else if row == 3 && column == 3 {
        Instr::JmpIndirect
    } else if row == 4 && column == 7 {
        Instr::Masked(MaskedOp::Shy, AddrMode::AbsoluteX)
    } else if row == 4 {
        Instr::Store(StoreOp::Sty, even_column_mode(column))
    } else if row == 5 {
        Instr::Read(ReadOp::Ldy, even_column_mode(column))
    } else if column <= 3 && row == 1 {
        Instr::Read(ReadOp::Bit, even_column_mode(column))
    } else if column <= 3 && row == 6 {
        Instr::Read(ReadOp::Cpy, even_column_mode(column))
    } else if column <= 3 && row == 7 {
        Instr::Read(ReadOp::Cpx, even_column_mode(column))
    } else {
        Instr::NopRead(even_column_mode(column))
    }
}

/// The operation of a row of the accumulator group (low two bits 01).
pub open spec fn accumulator_row(row: u8) -> ReadOp {
    match row {
        0 => ReadOp::Ora,
        1 => ReadOp::And,
        2 => ReadOp::Eor,
        3 => ReadOp::Adc,
        5 => ReadOp::Lda,
        6 => ReadOp::Cmp,
        _ => ReadOp::Sbc,
    }
}

/// Opcodes whose low two bits are 01: the accumulator group.
pub open spec fn accumulator_opcode(row: u8, column: u8) -> Instr {
    if row == 4 && column == 2 {
        Instr::NopImmediate
    } else if row == 4 {
        Instr::Store(StoreOp::Sta, odd_column_mode(column))
    } else if column == 2 {
        Instr::Immediate(accumulator_row(row))
    } else {
        Instr::Read(accumulator_row(row), odd_column_mode(column))
    }
}

/// The operation of a row of the shift group (low two bits 10).
pub open spec fn shift_row(row: u8) -> RmwOp {
    match row {
        0 => RmwOp::Asl,
        1 => RmwOp::Rol,
        2 => RmwOp::Lsr,
        3 => RmwOp::Ror,
        6 => RmwOp::Dec,
        _ => RmwOp::Inc,
    }
}

/// Opcodes whose low two bits are 10: shifts, INC/DEC and X transfers.
pub open spec fn shift_opcode(row: u8, column: u8) -> Instr {
    if column == 0 {
        if row <= 3 {
            Instr::Jam
        } else if row == 5 {
            Instr::Immediate(ReadOp::Ldx)
        } else {
            Instr::NopImmediate
        }
    } else if column == 2 {
        match row {
            4 => Instr::Register(RegOp::Txa),
            5 => Instr::Register(RegOp::Tax),
            6 => Instr::Register(RegOp::Dex),
            7 => Instr::Nop,
            _ => Instr::Accumulator(shift_row(row)),
        }
    } else if column == 4 {
        Instr::Jam
    } else if column == 6 {
        match row {
            4 => Instr::Register(RegOp::Txs),
            5 => Instr::Register(RegOp::Tsx),
            _ => Instr::Nop,
        }
    } else if row == 4 {
        match column {
            5 => Instr::Store(StoreOp::Stx, AddrMode::ZeroPageY),
            7 => Instr::Masked(MaskedOp::Shx, AddrMode::AbsoluteY),
            _ => Instr::Store(StoreOp::Stx, even_column_mode(column)),
        }
    } else if row == 5 {
        match column {
            5 => Instr::Read(ReadOp::Ldx, AddrMode::ZeroPageY),
            7 => Instr::Read(ReadOp::Ldx, AddrMode::AbsoluteY),
            _ => Instr::Read(ReadOp::Ldx, even_column_mode(column)),
        }
    } else {
        Instr::Modify(shift_row(row), even_column_mode(column))
    }
}

/// The operation of a row of the undocumented group (low two bits 11).
pub open spec fn undocumented_row(row: u8) -> RmwOp {
    match row {
        0 => RmwOp::Slo,
        1 => RmwOp::Rla,
        2 => RmwOp::Sre,
        3 => RmwOp::Rra,
        6 => RmwOp::Dcp,
        _ => RmwOp::Isc,
    }
}

/// Opcodes whose low two bits are 11: all of them undocumented.
pub open spec fn undocumented_opcode(row: u8, column: u8) -> Instr {
    if column == 2 {
        match row {
            0 => Instr::Immediate(ReadOp::Anc),
            1 => Instr::Immediate(ReadOp::Anc),
            2 => Instr::Immediate(ReadOp::Alr),
            3 => Instr::Immediate(ReadOp::Arr),
            4 => Instr::Immediate(ReadOp::Ane),
            5 => Instr::Immediate(ReadOp::Lax),
            6 => Instr::Immediate(ReadOp::Sbx),
            _ => Instr::Immediate(ReadOp::Sbc),
        }
    } else if row == 4 {
        match column {
            4 => Instr::Masked(MaskedOp::Sha, AddrMode::IndirectY),
            5 => Instr::Store(StoreOp::Sax, AddrMode::ZeroPageY),
            6 => Instr::Tas,
            7 => Instr::Masked(MaskedOp::Sha, AddrMode::AbsoluteY),
            _ => Instr::Store(StoreOp::Sax, odd_column_mode(column)),
        }
    } else if row == 5 {
        match column {
            5 => Instr::Read(ReadOp::Lax, AddrMode::ZeroPageY),
            6 => Instr::Read(ReadOp::Las, AddrMode::AbsoluteY),
            7 => Instr::Read(ReadOp::Lax, AddrMode::AbsoluteY),
            _ => Instr::Read(ReadOp::Lax, odd_column_mode(column)),
        }
    } else {
        Instr::Modify(undocumented_row(row), odd_column_mode(column))
    }
}

/// The opcode matrix: the low two bits select the group, the top three the row
/// and the middle three the column.
pub open spec fn instruction(op: u8) -> Instr {
    let row: u8 = op / 32;
    let column: u8 = (op / 4) % 8;
    match op % 4 {
        0 => control_opcode(row, column),
        1 => accumulator_opcode(row, column),
        2 => shift_opcode(row, column),
        _ => undocumented_opcode(row, column),
    }
}

/// True for every undocumented ("illegal") opcode: the whole 11 group, the JAM
/// opcodes, the NOPs other than $EA, and SHX/SHY.
pub open spec fn undocumented(op: u8) -> bool {
    op % 4 == 3 || instruction(op) is Jam || instruction(op) is NopImmediate || instruction(
        op,
    ) is NopRead || instruction(op) is Masked || (instruction(op) is Nop && op != 0xEA)
}

/// Look an opcode up in the opcode matrix.
pub fn decode(op: u8) -> (i: Instr)
    ensures
        i == instruction(op),
{
    match op {
        0x00 => Instr::Brk,
        0x01 => Instr::Read(ReadOp::Ora, AddrMode::IndirectX),
        0x02 | 0x12 | 0x22 | 0x32 | 0x42 | 0x52 | 0x62 | 0x72 | 0x92 | 0xB2 | 0xD2 | 0xF2 => Instr::Jam,
        0x03 => Instr::Modify(RmwOp::Slo, AddrMode::IndirectX),
        0x04 | 0x44 | 0x64 => Instr::NopRead(AddrMode::ZeroPage),
        0x05 => Instr::Read(ReadOp::Ora, AddrMode::ZeroPage),
        0x06 => Instr::Modify(RmwOp::Asl, AddrMode::ZeroPage),
        0x07 => Instr::Modify(RmwOp::Slo, AddrMode::ZeroPage),
        0x08 => Instr::Php,
        0x09 => Instr::Immediate(ReadOp::Ora),
        0x0A => Instr::Accumulator(RmwOp::Asl),
        0x0B | 0x2B => Instr::Immediate(ReadOp::Anc),
        0x0C => Instr::NopRead(AddrMode::Absolute),
        0x0D => Instr::Read(ReadOp::Ora, AddrMode::Absolute),
        0x0E => Instr::Modify(RmwOp::Asl, AddrMode::Absolute),
        0x0F => Instr::Modify(RmwOp::Slo, AddrMode::Absolute),
        0x10 => Instr::Branch(0x80, false),
        0x11 => Instr::Read(ReadOp::Ora, AddrMode::IndirectY),
        0x13 => Instr::Modify(RmwOp::Slo, AddrMode::IndirectY),
        0x14 | 0x34 | 0x54 | 0x74 | 0xD4 | 0xF4 => Instr::NopRead(AddrMode::ZeroPageX),
        0x15 => Instr::Read(ReadOp::Ora, AddrMode::ZeroPageX),
        0x16 => Instr::Modify(RmwOp::Asl, AddrMode::ZeroPageX),
        0x17 => Instr::Modify(RmwOp::Slo, AddrMode::ZeroPageX),
        0x18 => Instr::SetFlag(0x01, false),
        0x19 => Instr::Read(ReadOp::Ora, AddrMode::AbsoluteY),
        0x1A | 0x3A | 0x5A | 0x7A | 0xDA | 0xEA | 0xFA => Instr::Nop,
        0x1B => Instr::Modify(RmwOp::Slo, AddrMode::AbsoluteY),
        0x1C | 0x3C | 0x5C | 0x7C | 0xDC | 0xFC => Instr::NopRead(AddrMode::AbsoluteX),
        0x1D => Instr::Read(ReadOp::Ora, AddrMode::AbsoluteX),
        0x1E => Instr::Modify(RmwOp::Asl, AddrMode::AbsoluteX),
        0x1F => Instr::Modify(RmwOp::Slo, AddrMode::AbsoluteX),
        0x20 => Instr::Jsr,
        0x21 => Instr::Read(ReadOp::And, AddrMode::IndirectX),
        0x23 => Instr::Modify(RmwOp::Rla, AddrMode::IndirectX),
        0x24 => Instr::Read(ReadOp::Bit, AddrMode::ZeroPage),
        0x25 => Instr::Read(ReadOp::And, AddrMode::ZeroPage),
        0x26 => Instr::Modify(RmwOp::Rol, AddrMode::ZeroPage),
        0x27 => Instr::Modify(RmwOp::Rla, AddrMode::ZeroPage),
        0x28 => Instr::Plp,
        0x29 => Instr::Immediate(ReadOp::And),
        0x2A => Instr::Accumulator(RmwOp::Rol),
        0x2C => Instr::Read(ReadOp::Bit, AddrMode::Absolute),
        0x2D => Instr::Read(ReadOp::And, AddrMode::Absolute),
        0x2E => Instr::Modify(RmwOp::Rol, AddrMode::Absolute),
        0x2F => Instr::Modify(RmwOp::Rla, AddrMode::Absolute),
        0x30 => Instr::Branch(0x80, true),
        0x31 => Instr::Read(ReadOp::And, AddrMode::IndirectY),
        0x33 => Instr::Modify(RmwOp::Rla, AddrMode::IndirectY),
        0x35 => Instr::Read(ReadOp::And, AddrMode::ZeroPageX),
        0x36 => Instr::Modify(RmwOp::Rol, AddrMode::ZeroPageX),
        0x37 => Instr::Modify(RmwOp::Rla, AddrMode::ZeroPageX),
        0x38 => Instr::SetFlag(0x01, true),
        0x39 => Instr::Read(ReadOp::And, AddrMode::AbsoluteY),
        0x3B => Instr::Modify(RmwOp::Rla, AddrMode::AbsoluteY),
        0x3D => Instr::Read(ReadOp::And, AddrMode::AbsoluteX),
        0x3E => Instr::Modify(RmwOp::Rol, AddrMode::AbsoluteX),
        0x3F => Instr::Modify(RmwOp::Rla, AddrMode::AbsoluteX),
        0x40 => Instr::Rti,
        0x41 => Instr::Read(ReadOp::Eor, AddrMode::IndirectX),
        0x43 => Instr::Modify(RmwOp::Sre, AddrMode::IndirectX),
        0x45 => Instr::Read(ReadOp::Eor, AddrMode::ZeroPage),
        0x46 => Instr::Modify(RmwOp::Lsr, AddrMode::ZeroPage),
        0x47 => Instr::Modify(RmwOp::Sre, AddrMode::ZeroPage),
        0x48 => Instr::Pha,
        0x49 => Instr::Immediate(ReadOp::Eor),
        0x4A => Instr::Accumulator(RmwOp::Lsr),
        0x4B => Instr::Immediate(ReadOp::Alr),
        0x4C => Instr::Jmp,
        0x4D => Instr::Read(ReadOp::Eor, AddrMode::Absolute),
        0x4E => Instr::Modify(RmwOp::Lsr, AddrMode::Absolute),
        0x4F => Instr::Modify(RmwOp::Sre, AddrMode::Absolute),
        0x50 => Instr::Branch(0x40, false),
        0x51 => Instr::Read(ReadOp::Eor, AddrMode::IndirectY),
        0x53 => Instr::Modify(RmwOp::Sre, AddrMode::IndirectY),
        0x55 => Instr::Read(ReadOp::Eor, AddrMode::ZeroPageX),
        0x56 => Instr::Modify(RmwOp::Lsr, AddrMode::ZeroPageX),
        0x57 => Instr::Modify(RmwOp::Sre, AddrMode::ZeroPageX),
        0x58 => Instr::SetFlag(0x04, false),
        0x59 => Instr::Read(ReadOp::Eor, AddrMode::AbsoluteY),
        0x5B => Instr::Modify(RmwOp::Sre, AddrMode::AbsoluteY),
        0x5D => Instr::Read(ReadOp::Eor, AddrMode::AbsoluteX),
        0x5E => Instr::Modify(RmwOp::Lsr, AddrMode::AbsoluteX),
        0x5F => Instr::Modify(RmwOp::Sre, AddrMode::AbsoluteX),
        0x60 => Instr::Rts,
        0x61 => Instr::Read(ReadOp::Adc, AddrMode::IndirectX),
        0x63 => Instr::Modify(RmwOp::Rra, AddrMode::IndirectX),
        0x65 => Instr::Read(ReadOp::Adc, AddrMode::ZeroPage),
        0x66 => Instr::Modify(RmwOp::Ror, AddrMode::ZeroPage),
        0x67 => Instr::Modify(RmwOp::Rra, AddrMode::ZeroPage),
        0x68 => Instr::Pla,
        0x69 => Instr::Immediate(ReadOp::Adc),
        0x6A => Instr::Accumulator(RmwOp::Ror),
        0x6B => Instr::Immediate(ReadOp::Arr),
        0x6C => Instr::JmpIndirect,
        0x6D => Instr::Read(ReadOp::Adc, AddrMode::Absolute),
        0x6E => Instr::Modify(RmwOp::Ror, AddrMode::Absolute),
        0x6F => Instr::Modify(RmwOp::Rra, AddrMode::Absolute),
        0x70 => Instr::Branch(0x40, true),
        0x71 => Instr::Read(ReadOp::Adc, AddrMode::IndirectY),
        0x73 => Instr::Modify(RmwOp::Rra, AddrMode::IndirectY),
        0x75 => Instr::Read(ReadOp::Adc, AddrMode::ZeroPageX),
        0x76 => Instr::Modify(RmwOp::Ror, AddrMode::ZeroPageX),
        0x77 => Instr::Modify(RmwOp::Rra, AddrMode::ZeroPageX),
        0x78 => Instr::SetFlag(0x04, true),
        0x79 => Instr::Read(ReadOp::Adc, AddrMode::AbsoluteY),
        0x7B => Instr::Modify(RmwOp::Rra, AddrMode::AbsoluteY),
        0x7D => Instr::Read(ReadOp::Adc, AddrMode::AbsoluteX),
        0x7E => Instr::Modify(RmwOp::Ror, AddrMode::AbsoluteX),
        0x7F => Instr::Modify(RmwOp::Rra, AddrMode::AbsoluteX),
        0x80 | 0x82 | 0x89 | 0xC2 | 0xE2 => Instr::NopImmediate,
        0x81 => Instr::Store(StoreOp::Sta, AddrMode::IndirectX),
        0x83 => Instr::Store(StoreOp::Sax, AddrMode::IndirectX),
        0x84 => Instr::Store(StoreOp::Sty, AddrMode::ZeroPage),
        0x85 => Instr::Store(StoreOp::Sta, AddrMode::ZeroPage),
        0x86 => Instr::Store(StoreOp::Stx, AddrMode::ZeroPage),
        0x87 => Instr::Store(StoreOp::Sax, AddrMode::ZeroPage),
        0x88 => Instr::Register(RegOp::Dey),
        0x8A => Instr::Register(RegOp::Txa),
        0x8B => Instr::Immediate(ReadOp::Ane),
        0x8C => Instr::Store(StoreOp::Sty, AddrMode::Absolute),
        0x8D => Instr::Store(StoreOp::Sta, AddrMode::Absolute),
        0x8E => Instr::Store(StoreOp::Stx, AddrMode::Absolute),
        0x8F => Instr::Store(StoreOp::Sax, AddrMode::Absolute),
        0x90 => Instr::Branch(0x01, false),
        0x91 => Instr::Store(StoreOp::Sta, AddrMode::IndirectY),
        0x93 => Instr::Masked(MaskedOp::Sha, AddrMode::IndirectY),
        0x94 => Instr::Store(StoreOp::Sty, AddrMode::ZeroPageX),
        0x95 => Instr::Store(StoreOp::Sta, AddrMode::ZeroPageX),
        0x96 => Instr::Store(StoreOp::Stx, AddrMode::ZeroPageY),
        0x97 => Instr::Store(StoreOp::Sax, AddrMode::ZeroPageY),
        0x98 => Instr::Register(RegOp::Tya),
        0x99 => Instr::Store(StoreOp::Sta, AddrMode::AbsoluteY),
        0x9A => Instr::Register(RegOp::Txs),
        0x9B => Instr::Tas,
        0x9C => Instr::Masked(MaskedOp::Shy, AddrMode::AbsoluteX),
        0x9D => Instr::Store(StoreOp::Sta, AddrMode::AbsoluteX),
        0x9E => Instr::Masked(MaskedOp::Shx, AddrMode::AbsoluteY),
        0x9F => Instr::Masked(MaskedOp::Sha, AddrMode::AbsoluteY),
        0xA0 => Instr::Immediate(ReadOp::Ldy),
        0xA1 => Instr::Read(ReadOp::Lda, AddrMode::IndirectX),
        0xA2 => Instr::Immediate(ReadOp::Ldx),
        0xA3 => Instr::Read(ReadOp::Lax, AddrMode::IndirectX),
        0xA4 => Instr::Read(ReadOp::Ldy, AddrMode::ZeroPage),
        0xA5 => Instr::Read(ReadOp::Lda, AddrMode::ZeroPage),
        0xA6 => Instr::Read(ReadOp::Ldx, AddrMode::ZeroPage),
        0xA7 => Instr::Read(ReadOp::Lax, AddrMode::ZeroPage),
        0xA8 => Instr::Register(RegOp::Tay),
        0xA9 => Instr::Immediate(ReadOp::Lda),
        0xAA => Instr::Register(RegOp::Tax),
        0xAB => Instr::Immediate(ReadOp::Lax),
        0xAC => Instr::Read(ReadOp::Ldy, AddrMode::Absolute),
        0xAD => Instr::Read(ReadOp::Lda, AddrMode::Absolute),
        0xAE => Instr::Read(ReadOp::Ldx, AddrMode::Absolute),
        0xAF => Instr::Read(ReadOp::Lax, AddrMode::Absolute),
        0xB0 => Instr::Branch(0x01, true),
        0xB1 => Instr::Read(ReadOp::Lda, AddrMode::IndirectY),
        0xB3 => Instr::Read(ReadOp::Lax, AddrMode::IndirectY),
        0xB4 => Instr::Read(ReadOp::Ldy, AddrMode::ZeroPageX),
        0xB5 => Instr::Read(ReadOp::Lda, AddrMode::ZeroPageX),
        0xB6 => Instr::Read(ReadOp::Ldx, AddrMode::ZeroPageY),
        0xB7 => Instr::Read(ReadOp::Lax, AddrMode::ZeroPageY),
        0xB8 => Instr::SetFlag(0x40, false),
        0xB9 => Instr::Read(ReadOp::Lda, AddrMode::AbsoluteY),
        0xBA => Instr::Register(RegOp::Tsx),
        0xBB => Instr::Read(ReadOp::Las, AddrMode::AbsoluteY),
        0xBC => Instr::Read(ReadOp::Ldy, AddrMode::AbsoluteX),
        0xBD => Instr::Read(ReadOp::Lda, AddrMode::AbsoluteX),
        0xBE => Instr::Read(ReadOp::Ldx, AddrMode::AbsoluteY),
        0xBF => Instr::Read(ReadOp::Lax, AddrMode::AbsoluteY),
        0xC0 => Instr::Immediate(ReadOp::Cpy),
        0xC1 => Instr::Read(ReadOp::Cmp, AddrMode::IndirectX),
        0xC3 => Instr::Modify(RmwOp::Dcp, AddrMode::IndirectX),
        0xC4 => Instr::Read(ReadOp::Cpy, AddrMode::ZeroPage),
        0xC5 => Instr::Read(ReadOp::Cmp, AddrMode::ZeroPage),
        0xC6 => Instr::Modify(RmwOp::Dec, AddrMode::ZeroPage),
        0xC7 => Instr::Modify(RmwOp::Dcp, AddrMode::ZeroPage),
        0xC8 => Instr::Register(RegOp::Iny),
        0xC9 => Instr::Immediate(ReadOp::Cmp),
        0xCA => Instr::Register(RegOp::Dex),
        0xCB => Instr::Immediate(ReadOp::Sbx),
        0xCC => Instr::Read(ReadOp::Cpy, AddrMode::Absolute),
        0xCD => Instr::Read(ReadOp::Cmp, AddrMode::Absolute),
        0xCE => Instr::Modify(RmwOp::Dec, AddrMode::Absolute),
        0xCF => Instr::Modify(RmwOp::Dcp, AddrMode::Absolute),
        0xD0 => Instr::Branch(0x02, false),
        0xD1 => Instr::Read(ReadOp::Cmp, AddrMode::IndirectY),
        0xD3 => Instr::Modify(RmwOp::Dcp, AddrMode::IndirectY),
        0xD5 => Instr::Read(ReadOp::Cmp, AddrMode::ZeroPageX),
        0xD6 => Instr::Modify(RmwOp::Dec, AddrMode::ZeroPageX),
        0xD7 => Instr::Modify(RmwOp::Dcp, AddrMode::ZeroPageX),
        0xD8 => Instr::SetFlag(0x08, false),
        0xD9 => Instr::Read(ReadOp::Cmp, AddrMode::AbsoluteY),
        0xDB => Instr::Modify(RmwOp::Dcp, AddrMode::AbsoluteY),
        0xDD => Instr::Read(ReadOp::Cmp, AddrMode::AbsoluteX),
        0xDE => Instr::Modify(RmwOp::Dec, AddrMode::AbsoluteX),
        0xDF => Instr::Modify(RmwOp::Dcp, AddrMode::AbsoluteX),
        0xE0 => Instr::Immediate(ReadOp::Cpx),
        0xE1 => Instr::Read(ReadOp::Sbc, AddrMode::IndirectX),
        0xE3 => Instr::Modify(RmwOp::Isc, AddrMode::IndirectX),
        0xE4 => Instr::Read(ReadOp::Cpx, AddrMode::ZeroPage),
        0xE5 => Instr::Read(ReadOp::Sbc, AddrMode::ZeroPage),
        0xE6 => Instr::Modify(RmwOp::Inc, AddrMode::ZeroPage),
        0xE7 => Instr::Modify(RmwOp::Isc, AddrMode::ZeroPage),
        0xE8 => Instr::Register(RegOp::Inx),
        0xE9 | 0xEB => Instr::Immediate(ReadOp::Sbc),
        0xEC => Instr::Read(ReadOp::Cpx, AddrMode::Absolute),
        0xED => Instr::Read(ReadOp::Sbc, AddrMode::Absolute),
        0xEE => Instr::Modify(RmwOp::Inc, AddrMode::Absolute),
        0xEF => Instr::Modify(RmwOp::Isc, AddrMode::Absolute),
        0xF0 => Instr::Branch(0x02, true),
        0xF1 => Instr::Read(ReadOp::Sbc, AddrMode::IndirectY),
        0xF3 => Instr::Modify(RmwOp::Isc, AddrMode::IndirectY),
        0xF5 => Instr::Read(ReadOp::Sbc, AddrMode::ZeroPageX),
        0xF6 => Instr::Modify(RmwOp::Inc, AddrMode::ZeroPageX),
        0xF7 => Instr::Modify(RmwOp::Isc, AddrMode::ZeroPageX),
        0xF8 => Instr::SetFlag(0x08, true),
        0xF9 => Instr::Read(ReadOp::Sbc, AddrMode::AbsoluteY),
        0xFB => Instr::Modify(RmwOp::Isc, AddrMode::AbsoluteY),
        0xFD => Instr::Read(ReadOp::Sbc, AddrMode::AbsoluteX),
        0xFE => Instr::Modify(RmwOp::Inc, AddrMode::AbsoluteX),
        0xFF => Instr::Modify(RmwOp::Isc, AddrMode::AbsoluteX),
    }
}

/// True for every undocumented ("illegal") opcode on the NMOS 6510.
pub fn is_undocumented(op: u8) -> (b: bool)
    ensures
        b == undocumented(op),
{
    match op {
        0x02 | 0x03 | 0x04 | 0x07 | 0x0B | 0x0C | 0x0F | 0x12 | 0x13 | 0x14 | 0x17 | 0x1A
        | 0x1B | 0x1C | 0x1F | 0x22 | 0x23 | 0x27 | 0x2B | 0x2F | 0x32 | 0x33 | 0x34 | 0x37
        | 0x3A | 0x3B | 0x3C | 0x3F | 0x42 | 0x43 | 0x44 | 0x47 | 0x4B | 0x4F | 0x52 | 0x53
        | 0x54 | 0x57 | 0x5A | 0x5B | 0x5C | 0x5F | 0x62 | 0x63 | 0x64 | 0x67 | 0x6B | 0x6F
        | 0x72 | 0x73 | 0x74 | 0x77 | 0x7A | 0x7B | 0x7C | 0x7F | 0x80 | 0x82 | 0x83 | 0x87
        | 0x89 | 0x8B | 0x8F | 0x92 | 0x93 | 0x97 | 0x9B | 0x9C | 0x9E | 0x9F | 0xA3 | 0xA7
        | 0xAB | 0xAF | 0xB2 | 0xB3 | 0xB7 | 0xBB | 0xBF | 0xC2 | 0xC3 | 0xC7 | 0xCB | 0xCF
        | 0xD2 | 0xD3 | 0xD4 | 0xD7 | 0xDA | 0xDB | 0xDC | 0xDF | 0xE2 | 0xE3 | 0xE7 | 0xEB
        | 0xEF | 0xF2 | 0xF3 | 0xF4 | 0xF7 | 0xFA | 0xFB | 0xFC | 0xFF => true,
        _ => false,
    }
}

} // verus!
