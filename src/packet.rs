//! Classification of a 32-bit configuration word into a packet header.
//!
//! Type-1 layout: type `[31:29] = 001`, opcode `[28:27]`, register
//! `[26:13]`, reserved `[12:11]`, word count `[10:0]`.
//! Type-2 layout: type `[31:29] = 010`, opcode `[28:27]`, word count `[26:0]`.
use crate::bits::{bitfield, field};
use vstd::prelude::*;

verus! {

/// The header-type tag of a Type-1 packet.
pub const HEADER_TYPE1: u32 = 0b001;

/// The header-type tag of a Type-2 packet.
pub const HEADER_TYPE2: u32 = 0b010;

/// Packet operation.
#[derive(Clone, Copy, Debug, PartialEq, Eq, Structural)]
pub enum Opcode {
    Nop,
    Read,
    Write,
    Invalid,
}

/// Configuration register addressed by a Type-1 packet.
#[derive(Clone, Copy, Debug, PartialEq, Eq, Structural)]
pub enum Register {
    Crc,
    Far,
    Fdri,
    Fdro,
    Cmd,
    Ctl0,
    Mask,
    Stat,
    Lout,
    Cor0,
    Mfwr,
    Cbc,
    Idcode,
    Axss,
    Cor1,
    Wbstar,
    Timer,
    Bootsts,
    Ctl1,
    Bspi,
    Invalid,
}

/// What a single 32-bit word says about itself as a packet header.
#[derive(Clone, Copy, Debug, PartialEq, Eq, Structural)]
pub enum PacketClassification {
    Type1 { opcode: Opcode, register: Register, word_count: u32 },
    Type2 { opcode: Opcode, word_count: u32 },
    Unknown,
}

/// The opcode named by a 2-bit opcode code.
pub open spec fn opcode_of(code: nat) -> Opcode {
    if code == 0 {
        Opcode::Nop
    } else if code == 1 {
        Opcode::Read
    } else if code == 2 {
        Opcode::Write
    } else {
        Opcode::Invalid
    }
}

/// The register named by a register code; codes outside the table are
/// `Invalid`.
pub open spec fn register_of(code: nat) -> Register {
    if code == 0b00000 {
        Register::Crc
    } else if code == 0b00001 {
        Register::Far
    } else if code == 0b00010 {
        Register::Fdri
    } else if code == 0b00011 {
        Register::Fdro
    } else if code == 0b00100 {
        Register::Cmd
    } else if code == 0b00101 {
        Register::Ctl0
    } else if code == 0b00110 {
        Register::Mask
    } else if code == 0b00111 {
        Register::Stat
    } else if code == 0b01000 {
        Register::Lout
    } else if code == 0b01001 {
        Register::Cor0
    } else if code == 0b01010 {
        Register::Mfwr
    } else if code == 0b01011 {
        Register::Cbc
    } else if code == 0b01100 {
        Register::Idcode
    } else if code == 0b01101 {
        Register::Axss
    } else if code == 0b01110 {
        Register::Cor1
    } else if code == 0b10000 {
        Register::Wbstar
    } else if code == 0b10001 {
        Register::Timer
    } else if code == 0b10110 {
        Register::Bootsts
    } else if code == 0b11000 {
        Register::Ctl1
    } else if code == 0b11111 {
        Register::Bspi
    } else {
        Register::Invalid
    }
}

/// The classification of `word` by its header type, opcode, register and word
/// count fields.
pub open spec fn classification(word: u32) -> PacketClassification {
    let tag = field(word, 29, 31);
    if tag == HEADER_TYPE1 {
        PacketClassification::Type1 {
            opcode: opcode_of(field(word, 27, 28)),
            register: register_of(field(word, 13, 26)),
            word_count: field(word, 0, 10) as u32,
        }
    } else if tag == HEADER_TYPE2 {
        PacketClassification::Type2 {
            opcode: opcode_of(field(word, 27, 28)),
            word_count: field(word, 0, 26) as u32,
        }
    } else {
        PacketClassification::Unknown
    }
}

/// How many payload words follow a word of this classification: none for a
/// Type-1 NOP whatever its word count field holds, none for an unknown word.
pub open spec fn payload_words(c: PacketClassification) -> nat {
    match c {
        PacketClassification::Type1 { opcode, word_count, .. } => {
            if opcode == Opcode::Nop {
                0
            } else {
                word_count as nat
            }
        },
        PacketClassification::Type2 { word_count, .. } => word_count as nat,
        PacketClassification::Unknown => 0,
    }
}

/// Looks up the opcode of a 2-bit opcode code.
pub fn opcode_from_code(code: u32) -> (r: Opcode)
    ensures
        r == opcode_of(code as nat),
{
    match code {
        0 => Opcode::Nop,
        1 => Opcode::Read,
        2 => Opcode::Write,
        _ => Opcode::Invalid,
    }
}

/// Looks up the register of a register code.
pub fn register_from_code(code: u32) -> (r: Register)
    ensures
        r == register_of(code as nat),
{
    match code {
        0b00000 => Register::Crc,
        0b00001 => Register::Far,
        0b00010 => Register::Fdri,
        0b00011 => Register::Fdro,
        0b00100 => Register::Cmd,
        0b00101 => Register::Ctl0,
        0b00110 => Register::Mask,
        0b00111 => Register::Stat,
        0b01000 => Register::Lout,
        0b01001 => Register::Cor0,
        0b01010 => Register::Mfwr,
        0b01011 => Register::Cbc,
        0b01100 => Register::Idcode,
        0b01101 => Register::Axss,
        0b01110 => Register::Cor1,
        0b10000 => Register::Wbstar,
        0b10001 => Register::Timer,
        0b10110 => Register::Bootsts,
        0b11000 => Register::Ctl1,
        0b11111 => Register::Bspi,
        _ => Register::Invalid,
    }
}

/// Classifies one configuration word.
pub fn classify(word: u32) -> (r: PacketClassification)
    ensures
        r == classification(word),
{
    let tag = bitfield(word, 29, 31);
    if tag == HEADER_TYPE1 {
        let opcode = opcode_from_code(bitfield(word, 27, 28));
        let register = register_from_code(bitfield(word, 13, 26));
        PacketClassification::Type1 { opcode, register, word_count: bitfield(word, 0, 10) }
    } else if tag == HEADER_TYPE2 {
        let opcode = opcode_from_code(bitfield(word, 27, 28));
        PacketClassification::Type2 { opcode, word_count: bitfield(word, 0, 26) }
    } else {
        PacketClassification::Unknown
    }
}

/// Number of payload words that follow a packet header of this
/// classification.
pub fn payload_word_count(c: PacketClassification) -> (r: u32)
    ensures
        r as nat == payload_words(c),
{
    match c {
        PacketClassification::Type1 { opcode, word_count, .. } => {
            if opcode == Opcode::Nop {
                0
            } else {
                word_count
            }
        },
        PacketClassification::Type2 { word_count, .. } => word_count,
        PacketClassification::Unknown => 0,
    }
}

/// The display label of an opcode.
pub open spec fn opcode_label(op: Opcode) -> Seq<char> {
    match op {
        Opcode::Nop => "NOOP"@,
        Opcode::Read => "READ"@,
        Opcode::Write => "WRITE"@,
        Opcode::Invalid => "InvOP"@,
    }
}

/// The display label of a register.
pub open spec fn register_label(reg: Register) -> Seq<char> {
    match reg {
        Register::Crc => "CRC"@,
        Register::Far => "FAR"@,
        Register::Fdri => "FDRI"@,
        Register::Fdro => "FDRO"@,
        Register::Cmd => "CMD"@,
        Register::Ctl0 => "CTL0"@,
        Register::Mask => "MASK"@,
        Register::Stat => "STAT"@,
        Register::Lout => "LOUT"@,
        Register::Cor0 => "COR0"@,
        Register::Mfwr => "MFWR"@,
        Register::Cbc => "CBC"@,
        Register::Idcode => "IDCODE"@,
        Register::Axss => "AXSS"@,
        Register::Cor1 => "COR1"@,
        Register::Wbstar => "WBSTAR"@,
        Register::Timer => "TIMER"@,
        Register::Bootsts => "BOOTSTS"@,
        Register::Ctl1 => "CTL1"@,
        Register::Bspi => "BSPI"@,
        Register::Invalid => "InvREG"@,
    }
}

impl Opcode {
    /// The opcode's display label.
    pub fn label(&self) -> (r: &'static str)
        ensures
            r@ == opcode_label(*self),
    {
        match self {
            Opcode::Nop => "NOOP",
            Opcode::Read => "READ",
            Opcode::Write => "WRITE",
            Opcode::Invalid => "InvOP",
        }
    }
}

impl Register {
    /// The register's display label.
    pub fn label(&self) -> (r: &'static str)
        ensures
            r@ == register_label(*self),
    {
        match self {
            Register::Crc => "CRC",
            Register::Far => "FAR",
            Register::Fdri => "FDRI",
            Register::Fdro => "FDRO",
            Register::Cmd => "CMD",
            Register::Ctl0 => "CTL0",
            Register::Mask => "MASK",
            Register::Stat => "STAT",
            Register::Lout => "LOUT",
            Register::Cor0 => "COR0",
            Register::Mfwr => "MFWR",
            Register::Cbc => "CBC",
            Register::Idcode => "IDCODE",
            Register::Axss => "AXSS",
            Register::Cor1 => "COR1",
            Register::Wbstar => "WBSTAR",
            Register::Timer => "TIMER",
            Register::Bootsts => "BOOTSTS",
            Register::Ctl1 => "CTL1",
            Register::Bspi => "BSPI",
            Register::Invalid => "InvREG",
        }
    }
}

/// A Type-1 word with opcode `01` and register code `00010` is a READ of
/// FDRI.
pub proof fn lemma_type1_read_fdri(word: u32)
    requires
        field(word, 29, 31) == HEADER_TYPE1,
        field(word, 27, 28) == 0b01,
        field(word, 13, 26) == 0b00010,
    ensures
        classification(word) matches PacketClassification::Type1 { opcode, register, .. } && opcode
            == Opcode::Read && register == Register::Fdri,
{
}

} // verus!
