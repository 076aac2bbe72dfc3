//! A packet format of fixed 1024-byte buffers without a length, with 16 bit
//! fields written least significant byte first.
use crate::packet::{frame, lemma_frame_nul, utf8, write_at, zero_buffer_with};
use vstd::prelude::*;

verus! {

/// The operation code that starts every packet.
pub enum OpCode {
    RRQ,
    WRQ,
    DATA,
    ACK,
    ERROR,
}

/// The numeric value of an operation code.
pub open spec fn opcode_value(op: OpCode) -> u16 {
    match op {
        OpCode::RRQ => 1,
        OpCode::WRQ => 2,
        OpCode::DATA => 3,
        OpCode::ACK => 4,
        OpCode::ERROR => 5,
    }
}

impl OpCode {
    /// The operation code with the given value, which must be one of 1 to 5.
    pub fn from_u16(i: u16) -> (res: OpCode)
        requires
            1 <= i <= 5,
        ensures
            opcode_value(res) == i,
    {
        match i {
            1 => OpCode::RRQ,
            2 => OpCode::WRQ,
            3 => OpCode::DATA,
            4 => OpCode::ACK,
            _ => OpCode::ERROR,
        }
    }

    fn value(&self) -> (res: u16)
        ensures
            res == opcode_value(*self),
    {
        match self {
            OpCode::RRQ => 1,
            OpCode::WRQ => 2,
            OpCode::DATA => 3,
            OpCode::ACK => 4,
            OpCode::ERROR => 5,
        }
    }
}

/// The error codes of an ERROR packet.
pub enum ErrorCode {
    NotDefined,
    FileNotFound,
    AccessViolation,
    DiskFull,
    IllegalTFTP,
    UnknownID,
    FileExists,
    NoUser,
}

/// The numeric value of an error code.
pub open spec fn errcode_value(code: ErrorCode) -> u16 {
    match code {
        ErrorCode::NotDefined => 0,
        ErrorCode::FileNotFound => 1,
        ErrorCode::AccessViolation => 2,
        ErrorCode::DiskFull => 3,
        ErrorCode::IllegalTFTP => 4,
        ErrorCode::UnknownID => 5,
        ErrorCode::FileExists => 6,
        ErrorCode::NoUser => 7,
    }
}

impl ErrorCode {
    /// The error code with the given value, which must be at most 7.
    pub fn from_u16(i: u16) -> (res: ErrorCode)
        requires
            i <= 7,
        ensures
            errcode_value(res) == i,
    {
        match i {
            0 => ErrorCode::NotDefined,
            1 => ErrorCode::FileNotFound,
            2 => ErrorCode::AccessViolation,
            3 => ErrorCode::DiskFull,
            4 => ErrorCode::IllegalTFTP,
            5 => ErrorCode::UnknownID,
            6 => ErrorCode::FileExists,
            _ => ErrorCode::NoUser,
        }
    }

    fn value(&self) -> (res: u16)
        ensures
            res == errcode_value(*self),
    {
        match self {
            ErrorCode::NotDefined => 0,
            ErrorCode::FileNotFound => 1,
            ErrorCode::AccessViolation => 2,
            ErrorCode::DiskFull => 3,
            ErrorCode::IllegalTFTP => 4,
            ErrorCode::UnknownID => 5,
            ErrorCode::FileExists => 6,
            ErrorCode::NoUser => 7,
        }
    }
}

/// The transfer modes of read and write requests.
pub const MODES: [&'static str; 3] = ["netascii", "octet", "mail"];

/// The largest number of bytes of a packet.
pub const MAX_PACKET_SIZE: usize = 1024;

/// The largest number of bytes of a DATA packet.
pub const MAX_DATA_SIZE: usize = 516;

/// A TFTP packet.
pub enum Packet {
    RRQ { filename: String, mode: String },
    WRQ { filename: String, mode: String },
    DATA { block_num: u16, data: [u8; 512] },
    ACK(u16),
    ERROR { code: ErrorCode, msg: String },
}

/// The byte representation of a packet.
pub type PacketData = [u8; MAX_PACKET_SIZE];

/// Errors of writing a packet.
pub enum PacketErr {
    OverflowSize,
    InvalidOpCode,
}

impl PacketErr {
    /// The description of the error.
    pub fn str(&self) -> (res: &'static str)
        ensures
            res@ == (match self {
                PacketErr::OverflowSize => "Packet size has overflowed"@,
                PacketErr::InvalidOpCode => "Packet opcode is invalid"@,
            }),
    {
        match self {
            PacketErr::OverflowSize => "Packet size has overflowed",
            PacketErr::InvalidOpCode => "Packet opcode is invalid",
        }
    }
}

/// The bytes of a 16 bit value, least significant first.
pub open spec fn le_bytes(n: u16) -> Seq<u8> {
    seq![(n % 256) as u8, (n / 256) as u8]
}

/// The buffer of a packet, or `None` when it is too large.
pub open spec fn packet_image(p: Packet) -> Option<Seq<u8>> {
    match p {
        Packet::RRQ { filename, mode } => rw_image(OpCode::RRQ, utf8(filename@), utf8(mode@)),
        Packet::WRQ { filename, mode } => rw_image(OpCode::WRQ, utf8(filename@), utf8(mode@)),
        Packet::DATA { block_num, data } => Some(
            frame(le_bytes(opcode_value(OpCode::DATA)) + le_bytes(block_num) + data@),
        ),
        Packet::ACK(block_num) => Some(frame(le_bytes(opcode_value(OpCode::ACK)) + le_bytes(block_num))),
        Packet::ERROR { code, msg } => if utf8(msg@).len() + 5 > MAX_PACKET_SIZE {
            None
        } else {
            Some(frame(le_bytes(opcode_value(OpCode::ERROR)) + le_bytes(errcode_value(code)) + utf8(msg@)))
        },
    }
}

/// The buffer of a request: operation code, filename, zero byte, mode, zero
/// byte; `None` when that takes more than `MAX_PACKET_SIZE` bytes.
pub open spec fn rw_image(op: OpCode, f: Seq<u8>, m: Seq<u8>) -> Option<Seq<u8>> {
    if f.len() + m.len() + 4 > MAX_PACKET_SIZE {
        None
    } else {
        Some(frame(le_bytes(opcode_value(op)) + f + seq![0u8] + m))
    }
}

/// The operation code of a packet.
pub open spec fn packet_opcode(p: Packet) -> OpCode {
    match p {
        Packet::RRQ { .. } => OpCode::RRQ,
        Packet::WRQ { .. } => OpCode::WRQ,
        Packet::DATA { .. } => OpCode::DATA,
        Packet::ACK(_) => OpCode::ACK,
        Packet::ERROR { .. } => OpCode::ERROR,
    }
}

impl Packet {
    /// Returns the packet's operation code.
    pub fn op_code(&self) -> (res: OpCode)
        ensures
            res == packet_opcode(*self),
    {
        match self {
            Packet::RRQ { .. } => OpCode::RRQ,
            Packet::WRQ { .. } => OpCode::WRQ,
            Packet::DATA { .. } => OpCode::DATA,
            Packet::ACK(_) => OpCode::ACK,
            Packet::ERROR { .. } => OpCode::ERROR,
        }
    }

    /// Consumes the packet and returns the packet in byte representation.
    pub fn bytes(self) -> (res: Result<PacketData, PacketErr>)
        ensures
            match res {
                Ok(b) => packet_image(self) == Some(b@),
                Err(e) => packet_image(self) is None && e is OverflowSize,
            },
    {
        match self {
            Packet::RRQ { filename, mode } => rw_packet_bytes(OpCode::RRQ, filename, mode),
            Packet::WRQ { filename, mode } => rw_packet_bytes(OpCode::WRQ, filename, mode),
            Packet::DATA { block_num, data } => data_packet_bytes(block_num, data),
            Packet::ACK(block_num) => ack_packet_bytes(block_num),
            Packet::ERROR { code, msg } => error_packet_bytes(code, msg),
        }
    }
}

/// Splits a two byte unsigned integer into two one byte unsigned integers,
/// least significant first.
pub fn split_into_bytes(num: u16) -> (res: (u8, u8))
    ensures
        res.0 == num % 256,
        res.1 == num / 256,
{
    let (b0, b1) = (num & 0xFF, (num >> 8) & (0xFF));
    assert(num & 0xFF == num % 256) by (bit_vector);
    assert((num >> 8) & 0xFF == num / 256) by (bit_vector);
    (b0 as u8, b1 as u8)
}

fn rw_packet_bytes(packet: OpCode, filename: String, mode: String) -> (res: Result<PacketData, PacketErr>)
    ensures
        match res {
            Ok(b) => rw_image(packet, utf8(filename@), utf8(mode@)) == Some(b@),
            Err(e) => rw_image(packet, utf8(filename@), utf8(mode@)) is None && e is OverflowSize,
        },
{
    let fb = filename.as_str().as_bytes();
    let mb = mode.as_str().as_bytes();
    if fb.len() > MAX_PACKET_SIZE - 4 || mb.len() > MAX_PACKET_SIZE - 4 - fb.len() {
        return Err(PacketErr::OverflowSize);
    }
    let (b1, b2) = split_into_bytes(packet.value());
    let ghost hdr = seq![b1, b2];
    assert(hdr =~= le_bytes(opcode_value(packet)));
    let mut bytes = zero_buffer_with(b1, b2);

    let mut index: usize = 2;
    write_at(&mut bytes, index, fb, Ghost(hdr));
    index = index + fb.len();

    proof {
        lemma_frame_nul(hdr + fb@);
    }
    index = index + 1;
    if mb.len() > 0 {
        write_at(&mut bytes, index, mb, Ghost(hdr + fb@ + seq![0u8]));
    } else {
        assert(hdr + fb@ + seq![0u8] + mb@ =~= hdr + fb@ + seq![0u8]);
    }

    Ok(bytes)
}

fn data_packet_bytes(block_num: u16, data: [u8; 512]) -> (res: Result<PacketData, PacketErr>)
    ensures
        res matches Ok(b) && b@ == frame(
            le_bytes(opcode_value(OpCode::DATA)) + le_bytes(block_num) + data@,
        ),
{
    let (b1, b2) = split_into_bytes(OpCode::DATA.value());
    let mut bytes = zero_buffer_with(b1, b2);
    let (b3, b4) = split_into_bytes(block_num);
    bytes[2] = b3;
    bytes[3] = b4;
    let ghost hdr = seq![b1, b2, b3, b4];
    assert(bytes@ =~= frame(hdr));
    assert(hdr =~= le_bytes(opcode_value(OpCode::DATA)) + le_bytes(block_num));

    write_at(&mut bytes, 4, data.as_slice(), Ghost(hdr));

    Ok(bytes)
}

fn ack_packet_bytes(block_num: u16) -> (res: Result<PacketData, PacketErr>)
    ensures
        res matches Ok(b) && b@ == frame(le_bytes(opcode_value(OpCode::ACK)) + le_bytes(block_num)),
{
    let (b1, b2) = split_into_bytes(OpCode::ACK.value());
    let mut bytes = zero_buffer_with(b1, b2);
    let (b3, b4) = split_into_bytes(block_num);
    bytes[2] = b3;
    bytes[3] = b4;
    assert(bytes@ =~= frame(le_bytes(opcode_value(OpCode::ACK)) + le_bytes(block_num)));

    Ok(bytes)
}

fn error_packet_bytes(code: ErrorCode, msg: String) -> (res: Result<PacketData, PacketErr>)
    ensures
        match res {
            Ok(b) => utf8(msg@).len() + 5 <= MAX_PACKET_SIZE && b@ == frame(
                le_bytes(opcode_value(OpCode::ERROR)) + le_bytes(errcode_value(code)) + utf8(msg@),
            ),
            Err(e) => utf8(msg@).len() + 5 > MAX_PACKET_SIZE && e is OverflowSize,
        },
{
    let mb = msg.as_str().as_bytes();
    if mb.len() > MAX_PACKET_SIZE - 5 {
        return Err(PacketErr::OverflowSize);
    }
    let (b1, b2) = split_into_bytes(OpCode::ERROR.value());
    let mut bytes = zero_buffer_with(b1, b2);
    let (b3, b4) = split_into_bytes(code.value());
    bytes[2] = b3;
    bytes[3] = b4;
    let ghost hdr = seq![b1, b2, b3, b4];
    assert(bytes@ =~= frame(hdr));
    assert(hdr =~= le_bytes(opcode_value(OpCode::ERROR)) + le_bytes(errcode_value(code)));

    write_at(&mut bytes, 4, mb, Ghost(hdr));

    Ok(bytes)
}

} // verus!
