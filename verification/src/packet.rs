//! TFTP packets and their byte representation.
use byteorder::{BigEndian, ByteOrder};
use std::str::Utf8Error;
use vstd::prelude::*;
use vstd::utf8::{
    decode_utf8, encode_scalar, encode_utf8, encode_utf8_decode_utf8, encode_utf8_valid_utf8,
    has_width_1_encoding, valid_utf8,
};

verus! {

#[verifier::external_type_specification]
#[verifier::external_body]
pub struct ExUtf8Error(Utf8Error);

/// Errors of reading or writing a packet.
#[derive(Debug, PartialEq)]
pub enum PacketErr {
    OverflowSize,
    InvalidOpCode,
    StrOutOfBounds,
    OpCodeOutOfBounds,
    ErrCodeOutOfBounds,
    Utf8Error(Utf8Error),
}

/// The kind of a `PacketErr`. A UTF-8 error keeps no payload here: what
/// `std::str::from_utf8` reports about the bytes is left unstated.
pub enum PacketErrKind {
    OverflowSize,
    InvalidOpCode,
    StrOutOfBounds,
    OpCodeOutOfBounds,
    ErrCodeOutOfBounds,
    Utf8Error,
}

impl View for PacketErr {
    type V = PacketErrKind;

    open spec fn view(&self) -> PacketErrKind {
        match self {
            PacketErr::OverflowSize => PacketErrKind::OverflowSize,
            PacketErr::InvalidOpCode => PacketErrKind::InvalidOpCode,
            PacketErr::StrOutOfBounds => PacketErrKind::StrOutOfBounds,
            PacketErr::OpCodeOutOfBounds => PacketErrKind::OpCodeOutOfBounds,
            PacketErr::ErrCodeOutOfBounds => PacketErrKind::ErrCodeOutOfBounds,
            PacketErr::Utf8Error(_) => PacketErrKind::Utf8Error,
        }
    }
}

impl From<Utf8Error> for PacketErr {
    fn from(err: Utf8Error) -> (res: PacketErr) {
        PacketErr::Utf8Error(err)
    }
}

impl vstd::std_specs::convert::FromSpecImpl<Utf8Error> for PacketErr {
    open spec fn obeys_from_spec() -> bool {
        true
    }

    open spec fn from_spec(err: Utf8Error) -> PacketErr {
        PacketErr::Utf8Error(err)
    }
}

/// The transfer modes of read and write requests.
pub const MODES: [&'static str; 3] = ["netascii", "octet", "mail"];

/// The largest number of bytes of a packet.
pub const MAX_PACKET_SIZE: usize = 1024;

/// The largest number of bytes of a DATA packet (header and 512 data bytes).
pub const MAX_DATA_SIZE: usize = 516;

/// The operation code that starts every packet.
#[derive(PartialEq, Eq, Clone, Copy, Debug, Structural)]
pub enum OpCode {
    RRQ,
    WRQ,
    DATA,
    ACK,
    ERROR,
}

/// The numeric value of an operation code on the wire.
pub open spec fn opcode_value(op: OpCode) -> u16 {
    match op {
        OpCode::RRQ => 1,
        OpCode::WRQ => 2,
        OpCode::DATA => 3,
        OpCode::ACK => 4,
        OpCode::ERROR => 5,
    }
}

impl OpCode {
    /// The operation code with the given wire value, if there is one.
    pub fn from_u16(i: u16) -> (res: Result<OpCode, PacketErr>)
        ensures
            match res {
                Ok(op) => 1 <= i <= 5 && opcode_value(op) == i,
                Err(e) => !(1 <= i <= 5) && e == PacketErr::OpCodeOutOfBounds,
            },
    {
        match i {
            1 => Ok(OpCode::RRQ),
            2 => Ok(OpCode::WRQ),
            3 => Ok(OpCode::DATA),
            4 => Ok(OpCode::ACK),
            5 => Ok(OpCode::ERROR),
            _ => Err(PacketErr::OpCodeOutOfBounds),
        }
    }

    /// The wire value of the operation code.
    pub fn value(&self) -> (res: u16)
        ensures
            res == opcode_value(*self),
    {
        match self {
            OpCode::RRQ => 1,
            OpCode::WRQ => 2,
            OpCode::DATA => 3,
            OpCode::ACK => 4,
            OpCode::ERROR => 5,
        }
    }
}

/// The error codes of an ERROR packet.
#[derive(PartialEq, Eq, Clone, Copy, Debug, Structural)]
pub enum ErrorCode {
    NotDefined,
    FileNotFound,
    AccessViolation,
    DiskFull,
    IllegalTFTP,
    UnknownID,
    FileExists,
    NoUser,
}

/// The numeric value of an error code on the wire.
pub open spec fn errcode_value(code: ErrorCode) -> u16 {
    match code {
        ErrorCode::NotDefined => 0,
        ErrorCode::FileNotFound => 1,
        ErrorCode::AccessViolation => 2,
        ErrorCode::DiskFull => 3,
        ErrorCode::IllegalTFTP => 4,
        ErrorCode::UnknownID => 5,
        ErrorCode::FileExists => 6,
        ErrorCode::NoUser => 7,
    }
}

/// The error code with a wire value of at most 7.
pub open spec fn errcode_of(i: u16) -> ErrorCode {
    if i == 0 {
        ErrorCode::NotDefined
    } else if i == 1 {
        ErrorCode::FileNotFound
    } else if i == 2 {
        ErrorCode::AccessViolation
    } else if i == 3 {
        ErrorCode::DiskFull
    } else if i == 4 {
        ErrorCode::IllegalTFTP
    } else if i == 5 {
        ErrorCode::UnknownID
    } else if i == 6 {
        ErrorCode::FileExists
    } else {
        ErrorCode::NoUser
    }
}

/// The default description of an error code.
pub open spec fn errcode_message(code: ErrorCode) -> Seq<char> {
    match code {
        ErrorCode::NotDefined => "Not defined, see error message (if any)."@,
        ErrorCode::FileNotFound => "File not found."@,
        ErrorCode::AccessViolation => "Access violation."@,
        ErrorCode::DiskFull => "Disk full or allocation exceeded."@,
        ErrorCode::IllegalTFTP => "Illegal TFTP operation."@,
        ErrorCode::UnknownID => "Unknown transfer ID."@,
        ErrorCode::FileExists => "File already exists."@,
        ErrorCode::NoUser => "No such user."@,
    }
}

impl ErrorCode {
    /// The error code with the given wire value, if there is one.
    pub fn from_u16(i: u16) -> (res: Result<ErrorCode, PacketErr>)
        ensures
            match res {
                Ok(code) => i <= 7 && errcode_value(code) == i && code == errcode_of(i),
                Err(e) => i > 7 && e == PacketErr::ErrCodeOutOfBounds,
            },
    {
        match i {
            0 => Ok(ErrorCode::NotDefined),
            1 => Ok(ErrorCode::FileNotFound),
            2 => Ok(ErrorCode::AccessViolation),
            3 => Ok(ErrorCode::DiskFull),
            4 => Ok(ErrorCode::IllegalTFTP),
            5 => Ok(ErrorCode::UnknownID),
            6 => Ok(ErrorCode::FileExists),
            7 => Ok(ErrorCode::NoUser),
            _ => Err(PacketErr::ErrCodeOutOfBounds),
        }
    }

    /// The wire value of the error code.
    pub fn value(&self) -> (res: u16)
        ensures
            res == errcode_value(*self),
    {
        match self {
            ErrorCode::NotDefined => 0,
            ErrorCode::FileNotFound => 1,
            ErrorCode::AccessViolation => 2,
            ErrorCode::DiskFull => 3,
            ErrorCode::IllegalTFTP => 4,
            ErrorCode::UnknownID => 5,
            ErrorCode::FileExists => 6,
            ErrorCode::NoUser => 7,
        }
    }

    /// The default description of the error code.
    pub fn to_string(&self) -> (res: String)
        ensures
            res@ == errcode_message(*self),
    {
        match self {
            ErrorCode::NotDefined => "Not defined, see error message (if any).".to_owned(),
            ErrorCode::FileNotFound => "File not found.".to_owned(),
            ErrorCode::AccessViolation => "Access violation.".to_owned(),
            ErrorCode::DiskFull => "Disk full or allocation exceeded.".to_owned(),
            ErrorCode::IllegalTFTP => "Illegal TFTP operation.".to_owned(),
            ErrorCode::UnknownID => "Unknown transfer ID.".to_owned(),
            ErrorCode::FileExists => "File already exists.".to_owned(),
            ErrorCode::NoUser => "No such user.".to_owned(),
        }
    }

    /// Returns the ERROR packet with the error code and
    /// the default description as the error message.
    pub fn to_packet(self) -> (res: Packet)
        ensures
            res == (Packet::ERROR { code: self, msg: res->msg }),
            res->msg@ == errcode_message(self),
    {
        Packet::ERROR { code: self, msg: self.to_string() }
    }
}

/// The byte representation of a packet. Because many packets can
/// be smaller than the maximum packet size, it contains a length
/// parameter so that the actual packet size can be determined.
#[derive(Clone, Copy)]
pub struct PacketData {
    bytes: [u8; MAX_PACKET_SIZE],
    len: usize,
}

impl View for PacketData {
    /// The buffer of `MAX_PACKET_SIZE` bytes and the packet's length.
    type V = (Seq<u8>, usize);

    closed spec fn view(&self) -> (Seq<u8>, usize) {
        (self.bytes@, self.len)
    }
}

impl PacketData {
    pub fn new(bytes: [u8; MAX_PACKET_SIZE], len: usize) -> (res: PacketData)
        ensures
            res@ == (bytes@, len),
    {
        PacketData { bytes, len }
    }

    /// The buffer always holds `MAX_PACKET_SIZE` bytes.
    pub proof fn lemma_buffer_len(&self)
        ensures
            self@.0.len() == MAX_PACKET_SIZE,
    {
    }

    /// Returns a byte slice that can be sent through a socket.
    pub fn to_slice(&self) -> (res: &[u8])
        requires
            self@.1 <= MAX_PACKET_SIZE,
        ensures
            res@ == self@.0.take(self@.1 as int),
    {
        vstd::slice::slice_subrange(self.bytes.as_slice(), 0, self.len)
    }
}

/// A wrapper around the data that is to be sent in a TFTP DATA packet
/// so that the data can be cloned and compared for equality.
#[derive(Clone, Copy, Debug)]
pub struct DataBytes(pub [u8; 512]);

impl View for DataBytes {
    type V = Seq<u8>;

    open spec fn view(&self) -> Seq<u8> {
        self.0@
    }
}

impl PartialEq for DataBytes {
    fn eq(&self, other: &DataBytes) -> (res: bool) {
        let mut i: usize = 0;
        while i < 512
            invariant
                0 <= i <= 512,
                forall|j: int| 0 <= j < i ==> self.0@[j] == other.0@[j],
            decreases 512 - i,
        {
            if self.0[i] != other.0[i] {
                return false;
            }
            i = i + 1;
        }
        assert(self.0@ =~= other.0@);
        true
    }
}

impl vstd::std_specs::cmp::PartialEqSpecImpl for DataBytes {
    open spec fn obeys_eq_spec() -> bool {
        true
    }

    open spec fn eq_spec(&self, other: &DataBytes) -> bool {
        self.0@ == other.0@
    }
}

/// A TFTP packet.
#[derive(PartialEq, Clone, Debug)]
pub enum Packet {
    RRQ { filename: String, mode: String },
    WRQ { filename: String, mode: String },
    DATA { block_num: u16, data: DataBytes, len: usize },
    ACK(u16),
    ERROR { code: ErrorCode, msg: String },
}

/// The content of a packet: strings as characters, data as bytes.
pub enum PacketModel {
    Rrq { filename: Seq<char>, mode: Seq<char> },
    Wrq { filename: Seq<char>, mode: Seq<char> },
    Data { block_num: u16, data: Seq<u8>, len: usize },
    Ack(u16),
    Error { code: ErrorCode, msg: Seq<char> },
}

impl View for Packet {
    type V = PacketModel;

    open spec fn view(&self) -> PacketModel {
        match self {
            Packet::RRQ { filename, mode } => PacketModel::Rrq { filename: filename@, mode: mode@ },
            Packet::WRQ { filename, mode } => PacketModel::Wrq { filename: filename@, mode: mode@ },
            Packet::DATA { block_num, data, len } => PacketModel::Data {
                block_num: *block_num,
                data: data@,
                len: *len,
            },
            Packet::ACK(n) => PacketModel::Ack(*n),
            Packet::ERROR { code, msg } => PacketModel::Error { code: *code, msg: msg@ },
        }
    }
}

/// The operation code of a packet's content.
pub open spec fn model_opcode(p: PacketModel) -> OpCode {
    match p {
        PacketModel::Rrq { .. } => OpCode::RRQ,
        PacketModel::Wrq { .. } => OpCode::WRQ,
        PacketModel::Data { .. } => OpCode::DATA,
        PacketModel::Ack(_) => OpCode::ACK,
        PacketModel::Error { .. } => OpCode::ERROR,
    }
}

impl Packet {
    /// Returns the packet's operation code.
    pub fn op_code(&self) -> (res: OpCode)
        ensures
            res == model_opcode(self@),
    {
        match self {
            Packet::RRQ { .. } => OpCode::RRQ,
            Packet::WRQ { .. } => OpCode::WRQ,
            Packet::DATA { .. } => OpCode::DATA,
            Packet::ACK(_) => OpCode::ACK,
            Packet::ERROR { .. } => OpCode::ERROR,
        }
    }
}

/// `MAX_PACKET_SIZE` zero bytes.
pub open spec fn zero_pad() -> Seq<u8> {
    Seq::new(MAX_PACKET_SIZE as nat, |i: int| 0u8)
}

/// A packet buffer holding `content` at its start and zeros after it.
pub open spec fn frame(content: Seq<u8>) -> Seq<u8> {
    (content + zero_pad()).take(MAX_PACKET_SIZE as int)
}

/// The UTF-8 bytes of a string.
pub open spec fn utf8(s: Seq<char>) -> Seq<u8> {
    encode_utf8(s)
}

/// `Packet::bytes` stays within its buffers on this packet.
pub open spec fn bytes_safe(p: PacketModel) -> bool {
    match p {
        PacketModel::Data { len, .. } => len <= 512,
        _ => true,
    }
}

/// The byte image (buffer and length) of a read or write request: opcode,
/// filename, zero byte, mode, zero byte; a request longer than
/// `MAX_PACKET_SIZE` bytes is refused.
pub open spec fn rw_image(op: OpCode, f: Seq<u8>, m: Seq<u8>) -> Result<(Seq<u8>, int), PacketErrKind> {
    if f.len() + m.len() + 4 > MAX_PACKET_SIZE {
        Err(PacketErrKind::OverflowSize)
    } else {
        Ok((frame(be_bytes(opcode_value(op)) + f + seq![0u8] + m), (f.len() + m.len() + 4) as int))
    }
}

/// The byte image (buffer and length) of a packet, or the error of writing it.
pub open spec fn packet_image(p: PacketModel) -> Result<(Seq<u8>, int), PacketErrKind> {
    match p {
        PacketModel::Rrq { filename, mode } => rw_image(OpCode::RRQ, utf8(filename), utf8(mode)),
        PacketModel::Wrq { filename, mode } => rw_image(OpCode::WRQ, utf8(filename), utf8(mode)),
        PacketModel::Data { block_num, data, len } => Ok(
            (
                frame(be_bytes(opcode_value(OpCode::DATA)) + be_bytes(block_num) + data.take(len as int)),
                len + 4,
            ),
        ),
        PacketModel::Ack(block_num) => Ok(
            (frame(be_bytes(opcode_value(OpCode::ACK)) + be_bytes(block_num)), 4),
        ),
        PacketModel::Error { code, msg } => if utf8(msg).len() + 5 > MAX_PACKET_SIZE {
            Err(PacketErrKind::OverflowSize)
        } else {
            Ok(
                (
                    frame(
                        be_bytes(opcode_value(OpCode::ERROR)) + be_bytes(errcode_value(code)) + utf8(msg),
                    ),
                    (utf8(msg).len() + 5) as int,
                ),
            )
        },
    }
}

/// The outcome of writing a packet, as buffer and length or error kind.
pub open spec fn written(r: Result<PacketData, PacketErr>) -> Result<(Seq<u8>, int), PacketErrKind> {
    match r {
        Ok(d) => Ok((d@.0, d@.1 as int)),
        Err(e) => Err(e@),
    }
}

/// Big-endian bytes of a 16 bit value.
pub open spec fn be_bytes(n: u16) -> Seq<u8> {
    seq![(n / 256) as u8, (n % 256) as u8]
}

/// The 16 bit value of two big-endian bytes.
pub open spec fn be_value(hi: u8, lo: u8) -> u16 {
    (hi as int * 256 + lo as int) as u16
}

/// Splits a two byte unsigned integer into two one byte unsigned integers,
/// most significant byte first.
///
/// Trusted: calls `byteorder::BigEndian::write_u16`, which writes
/// `n.to_be_bytes()` into the buffer; the contract states big-endian order.
#[verifier::external_body]
fn split_into_bytes(num: u16) -> (res: (u8, u8))
    ensures
        seq![res.0, res.1] == be_bytes(num),
{
    let mut buf = [0u8; 2];
    BigEndian::write_u16(&mut buf, num);
    (buf[0], buf[1])
}

/// Merges two 1 byte unsigned integers into a two byte unsigned integer,
/// the first being the most significant.
///
/// Trusted: calls `byteorder::BigEndian::read_u16`, which is
/// `u16::from_be_bytes` of the first two bytes.
#[verifier::external_body]
fn merge_bytes(num1: u8, num2: u8) -> (res: u16)
    ensures
        res == be_value(num1, num2),
{
    BigEndian::read_u16(&[num1, num2])
}

/// A buffer of zeros holding the operation code (or any two bytes) at its start.
pub(crate) fn zero_buffer_with(b0: u8, b1: u8) -> (res: [u8; MAX_PACKET_SIZE])
    ensures
        res@ == frame(seq![b0, b1]),
{
    let mut bytes = [0u8; MAX_PACKET_SIZE];
    assert(bytes@ =~= zero_pad());
    bytes[0] = b0;
    bytes[1] = b1;
    assert(bytes@ =~= frame(seq![b0, b1]));
    bytes
}

/// Copies `src` into `bytes` starting at `start`, where `bytes` held `frame(content)`
/// and `content` ends at `start`.
pub(crate) fn write_at(bytes: &mut [u8; MAX_PACKET_SIZE], start: usize, src: &[u8], Ghost(content): Ghost<Seq<u8>>)
    requires
        old(bytes)@ == frame(content),
        content.len() == start,
        start + src@.len() <= MAX_PACKET_SIZE,
    ensures
        final(bytes)@ == frame(content + src@),
{
    let mut i: usize = 0;
    while i < src.len()
        invariant
            0 <= i <= src@.len(),
            start + src@.len() <= MAX_PACKET_SIZE,
            content.len() == start,
            bytes@ == frame(content + src@.take(i as int)),
        decreases src@.len() - i,
    {
        bytes[start + i] = src[i];
        assert(bytes@ =~= frame(content + src@.take(i + 1)));
        i = i + 1;
    }
    assert(src@.take(i as int) =~= src@);
}

/// A zero byte after the content does not change the buffer.
pub(crate) proof fn lemma_frame_nul(content: Seq<u8>)
    ensures
        frame(content + seq![0u8]) == frame(content),
{
    assert(frame(content + seq![0u8]) =~= frame(content));
}

/// The buffer of a request: operation code, filename, zero byte, mode.
fn rw_packet_bytes(packet: OpCode, filename: String, mode: String) -> (res: Result<PacketData, PacketErr>)
    requires
        packet == OpCode::RRQ || packet == OpCode::WRQ,
    ensures
        written(res) == rw_image(packet, utf8(filename@), utf8(mode@)),
{
    let fb = filename.as_str().as_bytes();
    let mb = mode.as_str().as_bytes();
    if fb.len() > MAX_PACKET_SIZE - 4 || mb.len() > MAX_PACKET_SIZE - 4 - fb.len() {
        return Err(PacketErr::OverflowSize);
    }
    let (b1, b2) = split_into_bytes(packet.value());
    let ghost hdr = seq![b1, b2];
    assert(hdr =~= be_bytes(opcode_value(packet)));
    let mut bytes = zero_buffer_with(b1, b2);

    let mut index: usize = 2;
    write_at(&mut bytes, index, fb, Ghost(hdr));
    index = index + fb.len();

    proof {
        lemma_frame_nul(hdr + fb@);
    }
    index = index + 1;
    if mb.len() > 0 {
        write_at(&mut bytes, index, mb, Ghost(hdr + fb@ + seq![0u8]));
    } else {
        assert(hdr + fb@ + seq![0u8] + mb@ =~= hdr + fb@ + seq![0u8]);
    }
    index = index + mb.len();
    index = index + 1;

    Ok(PacketData::new(bytes, index))
}

/// The buffer of a DATA packet: operation code, block number, `data_len` data bytes.
fn data_packet_bytes(block_num: u16, data: [u8; 512], data_len: usize) -> (res: Result<PacketData, PacketErr>)
    requires
        data_len <= 512,
    ensures
        written(res) == Ok::<(Seq<u8>, int), PacketErrKind>(
            (
                frame(be_bytes(opcode_value(OpCode::DATA)) + be_bytes(block_num) + data@.take(data_len as int)),
                data_len + 4,
            ),
        ),
{
    let (b1, b2) = split_into_bytes(OpCode::DATA.value());
    let mut bytes = zero_buffer_with(b1, b2);
    let (b3, b4) = split_into_bytes(block_num);
    bytes[2] = b3;
    bytes[3] = b4;
    let ghost hdr = seq![b1, b2, b3, b4];
    assert(bytes@ =~= frame(hdr));
    assert(hdr =~= be_bytes(opcode_value(OpCode::DATA)) + be_bytes(block_num));

    let src = vstd::slice::slice_subrange(data.as_slice(), 0, data_len);
    write_at(&mut bytes, 4, src, Ghost(hdr));
    assert(src@ =~= data@.take(data_len as int));

    Ok(PacketData::new(bytes, data_len + 4))
}

/// The buffer of an ACK packet: operation code and block number.
fn ack_packet_bytes(block_num: u16) -> (res: Result<PacketData, PacketErr>)
    ensures
        written(res) == Ok::<(Seq<u8>, int), PacketErrKind>(
            (frame(be_bytes(opcode_value(OpCode::ACK)) + be_bytes(block_num)), 4),
        ),
{
    let (b1, b2) = split_into_bytes(OpCode::ACK.value());
    let mut bytes = zero_buffer_with(b1, b2);
    let (b3, b4) = split_into_bytes(block_num);
    bytes[2] = b3;
    bytes[3] = b4;
    assert(bytes@ =~= frame(be_bytes(opcode_value(OpCode::ACK)) + be_bytes(block_num)));

    Ok(PacketData::new(bytes, 4))
}

/// The buffer of an ERROR packet: operation code, error code, message, zero byte.
fn error_packet_bytes(code: ErrorCode, msg: String) -> (res: Result<PacketData, PacketErr>)
    ensures
        written(res) == packet_image(PacketModel::Error { code, msg: msg@ }),
{
    let mb = msg.as_str().as_bytes();
    if mb.len() > MAX_PACKET_SIZE - 5 {
        return Err(PacketErr::OverflowSize);
    }
    let (b1, b2) = split_into_bytes(OpCode::ERROR.value());
    let mut bytes = zero_buffer_with(b1, b2);
    let (b3, b4) = split_into_bytes(code.value());
    bytes[2] = b3;
    bytes[3] = b4;
    let ghost hdr = seq![b1, b2, b3, b4];
    assert(bytes@ =~= frame(hdr));
    assert(hdr =~= be_bytes(opcode_value(OpCode::ERROR)) + be_bytes(errcode_value(code)));

    let mut index: usize = 4;
    write_at(&mut bytes, index, mb, Ghost(hdr));
    index = index + mb.len();
    index = index + 1;

    Ok(PacketData::new(bytes, index))
}

impl Packet {
    /// Consumes the packet and returns the packet in byte representation.
    pub fn bytes(self) -> (res: Result<PacketData, PacketErr>)
        requires
            bytes_safe(self@),
        ensures
            written(res) == packet_image(self@),
    {
        match self {
            Packet::RRQ { filename, mode } => rw_packet_bytes(OpCode::RRQ, filename, mode),
            Packet::WRQ { filename, mode } => rw_packet_bytes(OpCode::WRQ, filename, mode),
            Packet::DATA { block_num, data, len } => data_packet_bytes(block_num, data.0, len),
            Packet::ACK(block_num) => ack_packet_bytes(block_num),
            Packet::ERROR { code, msg } => error_packet_bytes(code, msg),
        }
    }
}

/// The index of the first zero byte of `buf` at or after `i`, or `buf.len()` when there is none.
pub open spec fn first_zero(buf: Seq<u8>, i: int) -> int
    decreases buf.len() - i,
{
    if i >= buf.len() {
        buf.len() as int
    } else if buf[i] == 0 {
        i
    } else {
        first_zero(buf, i + 1)
    }
}

/// What `first_zero` finds.
pub proof fn lemma_first_zero(buf: Seq<u8>, i: int)
    requires
        0 <= i <= buf.len(),
    ensures
        i <= first_zero(buf, i) <= buf.len(),
        first_zero(buf, i) < buf.len() ==> buf[first_zero(buf, i)] == 0,
        forall|j: int| i <= j < first_zero(buf, i) ==> buf[j] != 0,
    decreases buf.len() - i,
{
    if i < buf.len() && buf[i] != 0 {
        lemma_first_zero(buf, i + 1);
    }
}

/// The bytes of the zero-terminated string at `start` of a packet of `len` bytes,
/// with the index after its terminator; `None` when the string runs past the packet.
pub open spec fn scan_string(buf: Seq<u8>, len: int, start: int) -> Option<(Seq<u8>, int)> {
    let z = first_zero(buf, start);
    if start >= len {
        None
    } else if z == start {
        Some((Seq::empty(), start + 1))
    } else if z < buf.len() && z < len {
        Some((buf.subrange(start, z), z + 1))
    } else {
        None
    }
}

/// Reading the string at `start` stays within the buffer.
pub open spec fn scan_safe(buf: Seq<u8>, len: int, start: int) -> bool {
    0 <= start && (start >= len || (start < buf.len() && (first_zero(buf, start) < buf.len() || len
        <= buf.len())))
}

/// The string at `start` and the index after it, or the error of reading it.
pub open spec fn string_at(buf: Seq<u8>, len: int, start: int) -> Result<(Seq<char>, int), PacketErrKind> {
    match scan_string(buf, len, start) {
        None => Err(PacketErrKind::StrOutOfBounds),
        Some((b, end)) => if valid_utf8(b) {
            Ok((decode_utf8(b), end))
        } else {
            Err(PacketErrKind::Utf8Error)
        },
    }
}

/// Converts bytes to a string slice when they are valid UTF-8.
///
/// Trusted: calls `std::str::from_utf8`, which returns `Ok` exactly for valid
/// UTF-8 and then holds the characters that the bytes encode.
#[verifier::external_body]
fn str_from_utf8(v: &[u8]) -> (res: Result<&str, Utf8Error>)
    ensures
        res is Ok <==> valid_utf8(v@),
        res matches Ok(s) ==> s@ == decode_utf8(v@),
{
    std::str::from_utf8(v)
}

/// Reads bytes from the packet bytes starting from the given index
/// until the zero byte and returns a string containing the bytes read.
pub fn read_string(bytes: &PacketData, start: usize) -> (res: Result<(String, usize), PacketErr>)
    requires
        scan_safe(bytes@.0, bytes@.1 as int, start as int),
    ensures
        match res {
            Ok((s, end)) => string_at(bytes@.0, bytes@.1 as int, start as int) == Ok::<
                (Seq<char>, int),
                PacketErrKind,
            >((s@, end as int)),
            Err(e) => string_at(bytes@.0, bytes@.1 as int, start as int) == Err::<
                (Seq<char>, int),
                PacketErrKind,
            >(e@),
        },
{
    let ghost buf = bytes@.0;
    let ghost len = bytes@.1 as int;
    if start >= bytes.len {
        return Err(PacketErr::StrOutOfBounds);
    }
    proof {
        lemma_first_zero(buf, start as int);
    }
    let mut result_bytes: Vec<u8> = Vec::new();
    let mut counter = start;
    while bytes.bytes[counter] != 0
        invariant
            buf == bytes@.0,
            len == bytes@.1,
            buf.len() == MAX_PACKET_SIZE,
            scan_safe(buf, len, start as int),
            start <= counter < MAX_PACKET_SIZE,
            counter < len,
            first_zero(buf, start as int) == first_zero(buf, counter as int),
            result_bytes@ == buf.subrange(start as int, counter as int),
            start <= first_zero(buf, start as int) <= buf.len(),
            first_zero(buf, start as int) < buf.len() ==> buf[first_zero(buf, start as int)] == 0,
            forall|j: int| start <= j < first_zero(buf, start as int) ==> buf[j] != 0,
        decreases MAX_PACKET_SIZE - counter,
    {
        result_bytes.push(bytes.bytes[counter]);
        assert(result_bytes@ =~= buf.subrange(start as int, counter + 1));
        proof {
            lemma_first_zero(buf, counter + 1);
        }
        assert(first_zero(buf, counter as int) == first_zero(buf, counter + 1));
        counter = counter + 1;
        if counter >= bytes.len {
            return Err(PacketErr::StrOutOfBounds);
        }
    }
    counter = counter + 1;
    match str_from_utf8(result_bytes.as_slice()) {
        Ok(s) => Ok((s.to_owned(), counter)),
        Err(e) => Err(PacketErr::Utf8Error(e)),
    }
}

/// Reading a request's two strings from the packet stays within the buffer.
pub open spec fn rw_read_safe(buf: Seq<u8>, len: int) -> bool {
    &&& scan_safe(buf, len, 2)
    &&& string_at(buf, len, 2) matches Ok((_, end)) ==> scan_safe(buf, len, end)
}

/// `Packet::read` stays within its buffer (and the length of a DATA packet
/// covers its header) on this packet buffer.
pub open spec fn read_safe(buf: Seq<u8>, len: int) -> bool {
    let op = be_value(buf[0], buf[1]);
    &&& buf.len() == MAX_PACKET_SIZE
    &&& (op == 1 || op == 2) ==> rw_read_safe(buf, len)
    &&& op == 3 ==> len >= 4
    &&& (op == 5 && be_value(buf[2], buf[3]) <= 7) ==> scan_safe(buf, len, 4)
}

/// The request with the given operation code read from the packet buffer.
pub open spec fn rw_parsed(op: OpCode, buf: Seq<u8>, len: int) -> Result<PacketModel, PacketErrKind> {
    match string_at(buf, len, 2) {
        Err(e) => Err(e),
        Ok((filename, end)) => match string_at(buf, len, end) {
            Err(e) => Err(e),
            Ok((mode, _)) => if op == OpCode::RRQ {
                Ok(PacketModel::Rrq { filename, mode })
            } else if op == OpCode::WRQ {
                Ok(PacketModel::Wrq { filename, mode })
            } else {
                Err(PacketErrKind::InvalidOpCode)
            },
        },
    }
}

/// The ERROR packet read from the packet buffer.
pub open spec fn error_parsed(buf: Seq<u8>, len: int) -> Result<PacketModel, PacketErrKind> {
    let c = be_value(buf[2], buf[3]);
    if c > 7 {
        Err(PacketErrKind::ErrCodeOutOfBounds)
    } else {
        match string_at(buf, len, 4) {
            Err(e) => Err(e),
            Ok((msg, _)) => Ok(PacketModel::Error { code: errcode_of(c), msg }),
        }
    }
}

/// The packet read from a buffer holding `len` bytes, or the error of reading it.
pub open spec fn parsed(buf: Seq<u8>, len: int) -> Result<PacketModel, PacketErrKind> {
    let op = be_value(buf[0], buf[1]);
    if op == 1 {
        rw_parsed(OpCode::RRQ, buf, len)
    } else if op == 2 {
        rw_parsed(OpCode::WRQ, buf, len)
    } else if op == 3 {
        Ok(
            PacketModel::Data {
                block_num: be_value(buf[2], buf[3]),
                data: buf.subrange(4, 516),
                len: (len - 4) as usize,
            },
        )
    } else if op == 4 {
        Ok(PacketModel::Ack(be_value(buf[2], buf[3])))
    } else if op == 5 {
        error_parsed(buf, len)
    } else {
        Err(PacketErrKind::OpCodeOutOfBounds)
    }
}

/// The outcome of reading a packet, as packet content or error kind.
pub open spec fn read_outcome(r: Result<Packet, PacketErr>) -> Result<PacketModel, PacketErrKind> {
    match r {
        Ok(p) => Ok(p@),
        Err(e) => Err(e@),
    }
}

fn read_rw_packet(code: OpCode, bytes: PacketData) -> (res: Result<Packet, PacketErr>)
    requires
        bytes@.0.len() == MAX_PACKET_SIZE,
        rw_read_safe(bytes@.0, bytes@.1 as int),
    ensures
        read_outcome(res) == rw_parsed(code, bytes@.0, bytes@.1 as int),
{
    let (filename, end_pos) = read_string(&bytes, 2)?;
    let (mode, _) = read_string(&bytes, end_pos)?;

    match code {
        OpCode::RRQ => Ok(Packet::RRQ { filename, mode }),
        OpCode::WRQ => Ok(Packet::WRQ { filename, mode }),
        _ => Err(PacketErr::InvalidOpCode),
    }
}

fn read_data_packet(bytes: PacketData) -> (res: Result<Packet, PacketErr>)
    requires
        bytes@.0.len() == MAX_PACKET_SIZE,
        bytes@.1 >= 4,
    ensures
        read_outcome(res) == Ok::<PacketModel, PacketErrKind>(
            PacketModel::Data {
                block_num: be_value(bytes@.0[2], bytes@.0[3]),
                data: bytes@.0.subrange(4, 516),
                len: (bytes@.1 - 4) as usize,
            },
        ),
{
    let block_num = merge_bytes(bytes.bytes[2], bytes.bytes[3]);
    let mut data = [0u8; 512];
    let mut i: usize = 0;
    while i < 512
        invariant
            0 <= i <= 512,
            bytes@.0.len() == MAX_PACKET_SIZE,
            forall|j: int| 0 <= j < i ==> data@[j] == bytes@.0[j + 4],
        decreases 512 - i,
    {
        data[i] = bytes.bytes[i + 4];
        i = i + 1;
    }
    assert(data@ =~= bytes@.0.subrange(4, 516));

    Ok(Packet::DATA { block_num, data: DataBytes(data), len: bytes.len - 4 })
}

fn read_ack_packet(bytes: PacketData) -> (res: Result<Packet, PacketErr>)
    requires
        bytes@.0.len() == MAX_PACKET_SIZE,
    ensures
        read_outcome(res) == Ok::<PacketModel, PacketErrKind>(
            PacketModel::Ack(be_value(bytes@.0[2], bytes@.0[3])),
        ),
{
    let block_num = merge_bytes(bytes.bytes[2], bytes.bytes[3]);
    Ok(Packet::ACK(block_num))
}

fn read_error_packet(bytes: PacketData) -> (res: Result<Packet, PacketErr>)
    requires
        bytes@.0.len() == MAX_PACKET_SIZE,
        be_value(bytes@.0[2], bytes@.0[3]) <= 7 ==> scan_safe(bytes@.0, bytes@.1 as int, 4),
    ensures
        read_outcome(res) == error_parsed(bytes@.0, bytes@.1 as int),
{
    let error_code = ErrorCode::from_u16(merge_bytes(bytes.bytes[2], bytes.bytes[3]))?;
    let (msg, _) = read_string(&bytes, 4)?;

    Ok(Packet::ERROR { code: error_code, msg })
}

impl Packet {
    /// Creates and returns a packet parsed from its byte representation.
    pub fn read(bytes: PacketData) -> (res: Result<Packet, PacketErr>)
        requires
            read_safe(bytes@.0, bytes@.1 as int),
        ensures
            read_outcome(res) == parsed(bytes@.0, bytes@.1 as int),
    {
        let opcode = OpCode::from_u16(merge_bytes(bytes.bytes[0], bytes.bytes[1]))?;
        match opcode {
            OpCode::RRQ | OpCode::WRQ => read_rw_packet(opcode, bytes),
            OpCode::DATA => read_data_packet(bytes),
            OpCode::ACK => read_ack_packet(bytes),
            OpCode::ERROR => read_error_packet(bytes),
        }
    }
}

/// Packets that come back unchanged from writing and reading them: strings
/// without NUL characters that fit in one packet buffer, data of at most 512
/// bytes with zeros after its length.
pub open spec fn roundtrips(p: PacketModel) -> bool {
    match p {
        PacketModel::Rrq { filename, mode } => {
            &&& !filename.contains('\0')
            &&& !mode.contains('\0')
            &&& utf8(filename).len() + utf8(mode).len() <= MAX_PACKET_SIZE - 4
        },
        PacketModel::Wrq { filename, mode } => {
            &&& !filename.contains('\0')
            &&& !mode.contains('\0')
            &&& utf8(filename).len() + utf8(mode).len() <= MAX_PACKET_SIZE - 4
        },
        PacketModel::Data { data, len, .. } => {
            &&& len <= 512
            &&& data.len() == 512
            &&& forall|i: int| len <= i < 512 ==> data[i] == 0
        },
        PacketModel::Ack(_) => true,
        PacketModel::Error { msg, .. } => {
            &&& !msg.contains('\0')
            &&& utf8(msg).len() <= MAX_PACKET_SIZE - 5
        },
    }
}

/// The UTF-8 encoding of a character other than NUL holds no zero byte.
proof fn lemma_scalar_no_zero(c: char)
    requires
        c != '\0',
    ensures
        forall|i: int| 0 <= i < encode_scalar(c as u32).len() ==> #[trigger] encode_scalar(c as u32)[i] != 0,
{
    let v = c as u32;
    assert(v != 0);
    if has_width_1_encoding(v) {
        assert((v & 0x7F) as u8 != 0) by (bit_vector)
            requires
                v != 0 && v <= 0x7F,
        ;
    } else {
        assert(forall|x: u8| (0xC0u8 | x) != 0) by (bit_vector);
        assert(forall|x: u8| (0xE0u8 | x) != 0) by (bit_vector);
        assert(forall|x: u8| (0xF0u8 | x) != 0) by (bit_vector);
        assert(forall|x: u8| (0x80u8 | x) != 0) by (bit_vector);
    }
}

/// The UTF-8 encoding of a string without NUL characters holds no zero byte.
pub proof fn lemma_utf8_no_zero(s: Seq<char>)
    requires
        !s.contains('\0'),
    ensures
        forall|i: int| 0 <= i < utf8(s).len() ==> utf8(s)[i] != 0,
    decreases s.len(),
{
    if s.len() > 0 {
        assert(s[0] != '\0');
        lemma_scalar_no_zero(s[0]);
        let rest = s.drop_first();
        assert forall|c: char| rest.contains(c) implies s.contains(c) by {
            let k = choose|k: int| 0 <= k < rest.len() && rest[k] == c;
            assert(s[k + 1] == c);
        }
        lemma_utf8_no_zero(rest);
        let es = encode_scalar(s[0] as u32);
        assert(utf8(s) == es + utf8(rest));
        assert forall|i: int| 0 <= i < utf8(s).len() implies utf8(s)[i] != 0 by {
            if i < es.len() {
                assert(utf8(s)[i] == es[i]);
            } else {
                assert(utf8(s)[i] == utf8(rest)[i - es.len()]);
            }
        }
    }
}

/// `first_zero` finds the first zero after a run of nonzero bytes.
proof fn lemma_first_zero_at(buf: Seq<u8>, i: int, j: int)
    requires
        0 <= i <= j < buf.len(),
        forall|k: int| i <= k < j ==> buf[k] != 0,
        buf[j] == 0,
    ensures
        first_zero(buf, i) == j,
    decreases j - i,
{
    if i < j {
        lemma_first_zero_at(buf, i + 1, j);
    }
}

/// Reading back the string `s` written at `start` of a buffer and followed by a zero byte.
proof fn lemma_string_at(buf: Seq<u8>, len: int, start: int, s: Seq<char>)
    requires
        !s.contains('\0'),
        0 <= start,
        start + utf8(s).len() < buf.len(),
        start + utf8(s).len() < len,
        buf.subrange(start, start + utf8(s).len()) == utf8(s),
        buf[start + utf8(s).len()] == 0,
    ensures
        scan_safe(buf, len, start),
        string_at(buf, len, start) == Ok::<(Seq<char>, int), PacketErrKind>(
            (s, start + utf8(s).len() + 1),
        ),
{
    let b = utf8(s);
    lemma_utf8_no_zero(s);
    assert forall|k: int| start <= k < start + b.len() implies buf[k] != 0 by {
        assert(buf[k] == buf.subrange(start, start + b.len())[k - start]);
    }
    lemma_first_zero_at(buf, start, start + b.len());
    encode_utf8_valid_utf8(s);
    encode_utf8_decode_utf8(s);
    if b.len() == 0 {
        assert(b =~= Seq::<u8>::empty());
    }
}

/// Big-endian bytes of a value merge back into the value.
proof fn lemma_be_roundtrip(n: u16)
    ensures
        be_value(be_bytes(n)[0], be_bytes(n)[1]) == n,
{
}

/// `split_into_bytes` and `merge_bytes` undo each other: merging the bytes
/// of a split value gives the value, and splitting a merged value gives the
/// two bytes back.
pub proof fn lemma_split_merge(n: u16, hi: u8, lo: u8)
    ensures
        be_value(be_bytes(n)[0], be_bytes(n)[1]) == n,
        be_bytes(be_value(hi, lo)) == seq![hi, lo],
{
    lemma_be_roundtrip(n);
    assert(be_bytes(be_value(hi, lo)) =~= seq![hi, lo]);
}

/// Writing a packet and reading the bytes back gives the same packet, for
/// every packet that `roundtrips` describes.
pub proof fn lemma_read_after_bytes(p: PacketModel)
    requires
        roundtrips(p),
    ensures
        bytes_safe(p),
        packet_image(p) is Ok,
        packet_image(p) matches Ok((buf, len)) ==> read_safe(buf, len) && parsed(buf, len)
            == Ok::<PacketModel, PacketErrKind>(p),
{
    match p {
        PacketModel::Rrq { filename, mode } => {
            lemma_rw_roundtrip(OpCode::RRQ, filename, mode);
        },
        PacketModel::Wrq { filename, mode } => {
            lemma_rw_roundtrip(OpCode::WRQ, filename, mode);
        },
        PacketModel::Data { block_num, data, len } => {
            let hdr = be_bytes(opcode_value(OpCode::DATA)) + be_bytes(block_num);
            let buf = frame(hdr + data.take(len as int));
            lemma_be_roundtrip(opcode_value(OpCode::DATA));
            lemma_be_roundtrip(block_num);
            assert(buf[0] == hdr[0] && buf[1] == hdr[1] && buf[2] == hdr[2] && buf[3] == hdr[3]);
            assert(buf.subrange(4, 516) =~= data);
        },
        PacketModel::Ack(block_num) => {
            let hdr = be_bytes(opcode_value(OpCode::ACK)) + be_bytes(block_num);
            let buf = frame(hdr);
            lemma_be_roundtrip(opcode_value(OpCode::ACK));
            lemma_be_roundtrip(block_num);
            assert(buf[0] == hdr[0] && buf[1] == hdr[1] && buf[2] == hdr[2] && buf[3] == hdr[3]);
        },
        PacketModel::Error { code, msg } => {
            let b = utf8(msg);
            let hdr = be_bytes(opcode_value(OpCode::ERROR)) + be_bytes(errcode_value(code));
            let buf = frame(hdr + b);
            let bl = b.len() as int;
            let len = bl + 5;
            lemma_be_roundtrip(opcode_value(OpCode::ERROR));
            lemma_be_roundtrip(errcode_value(code));
            assert(buf[0] == hdr[0] && buf[1] == hdr[1] && buf[2] == hdr[2] && buf[3] == hdr[3]);
            assert(buf.subrange(4, 4 + bl) =~= b);
            assert(buf[4 + bl] == 0);
            lemma_string_at(buf, len, 4, msg);
            assert(errcode_of(errcode_value(code)) == code);
        },
    }
}

/// The request part of `lemma_read_after_bytes`.
proof fn lemma_rw_roundtrip(op: OpCode, filename: Seq<char>, mode: Seq<char>)
    requires
        op == OpCode::RRQ || op == OpCode::WRQ,
        !filename.contains('\0'),
        !mode.contains('\0'),
        utf8(filename).len() + utf8(mode).len() <= MAX_PACKET_SIZE - 4,
    ensures
        rw_image(op, utf8(filename), utf8(mode)) matches Ok((buf, len)) && read_safe(buf, len)
            && parsed(buf, len) == Ok::<PacketModel, PacketErrKind>(
            if op == OpCode::RRQ {
                PacketModel::Rrq { filename, mode }
            } else {
                PacketModel::Wrq { filename, mode }
            },
        ),
{
    let f = utf8(filename);
    let m = utf8(mode);
    let fl = f.len() as int;
    let ml = m.len() as int;
    let hdr = be_bytes(opcode_value(op));
    let content = hdr + f + seq![0u8] + m;
    let buf = frame(content);
    let len = fl + ml + 4;
    lemma_be_roundtrip(opcode_value(op));
    assert(buf[0] == hdr[0] && buf[1] == hdr[1]);
    assert(buf.subrange(2, 2 + fl) =~= f);
    assert(buf[2 + fl] == 0);
    lemma_string_at(buf, len, 2, filename);
    assert(buf.subrange(3 + fl, 3 + fl + ml) =~= m);
    assert(buf[3 + fl + ml] == 0);
    lemma_string_at(buf, len, 3 + fl, mode);
}

/// The wire values of operation codes lie in 1 to 5 and tell the codes apart,
/// so `OpCode::from_u16` gives back the code of every value that is written.
pub proof fn lemma_opcode_values(op: OpCode, other: OpCode)
    ensures
        1 <= opcode_value(op) <= 5,
        opcode_value(op) == opcode_value(other) ==> op == other,
{
}

/// The wire values of error codes lie in 0 to 7 and tell the codes apart,
/// so `ErrorCode::from_u16` gives back the code of every value that is written.
pub proof fn lemma_errcode_values(code: ErrorCode, other: ErrorCode)
    ensures
        errcode_value(code) <= 7,
        errcode_of(errcode_value(code)) == code,
        errcode_value(code) == errcode_value(other) ==> code == other,
{
}

impl Packet {
    /// Whether `bytes` stays within its buffers on this packet.
    pub fn can_write(&self) -> (res: bool)
        ensures
            res == bytes_safe(self@),
    {
        match self {
            Packet::DATA { len, .. } => *len <= 512,
            _ => true,
        }
    }
}

impl PacketData {
    /// The number of bytes of the packet.
    pub fn len(&self) -> (res: usize)
        ensures
            res == self@.1,
    {
        self.len
    }

    /// Whether reading the string at `start` stays within the buffer.
    fn string_in_bounds(&self, start: usize) -> (res: bool)
        ensures
            res == scan_safe(self@.0, self@.1 as int, start as int),
    {
        if start >= self.len {
            return true;
        }
        if start >= MAX_PACKET_SIZE {
            return false;
        }
        let ghost buf = self@.0;
        let mut i = start;
        while i < MAX_PACKET_SIZE && self.bytes[i] != 0
            invariant
                buf == self@.0,
                buf.len() == MAX_PACKET_SIZE,
                start <= i <= MAX_PACKET_SIZE,
                first_zero(buf, start as int) == first_zero(buf, i as int),
            decreases MAX_PACKET_SIZE - i,
        {
            i = i + 1;
        }
        proof {
            lemma_first_zero(buf, i as int);
        }
        i < MAX_PACKET_SIZE || self.len <= MAX_PACKET_SIZE
    }

    /// Whether `Packet::read` stays within the buffer on this packet.
    pub fn is_readable(&self) -> (res: bool)
        ensures
            res == read_safe(self@.0, self@.1 as int),
    {
        let op = merge_bytes(self.bytes[0], self.bytes[1]);
        if op == 1 || op == 2 {
            if !self.string_in_bounds(2) {
                return false;
            }
            match read_string(self, 2) {
                Ok((_, end)) => self.string_in_bounds(end),
                Err(_) => true,
            }
        } else if op == 3 {
            self.len >= 4
        } else if op == 5 {
            let code = merge_bytes(self.bytes[2], self.bytes[3]);
            code > 7 || self.string_in_bounds(4)
        } else {
            true
        }
    }
}

/// The operation code of a packet is what its first two bytes hold on the
/// wire, and reading a packet back keeps its operation code.
pub proof fn lemma_op_code_on_wire(p: PacketModel)
    requires
        bytes_safe(p),
    ensures
        packet_image(p) matches Ok((buf, len)) ==> be_value(buf[0], buf[1]) == opcode_value(
            model_opcode(p),
        ),
        packet_image(p) matches Ok((buf, len)) ==> (parsed(buf, len) matches Ok(q) ==> model_opcode(q)
            == model_opcode(p)),
{
    if let Ok((buf, len)) = packet_image(p) {
        let op = opcode_value(model_opcode(p));
        lemma_be_roundtrip(op);
        assert(buf[0] == be_bytes(op)[0] && buf[1] == be_bytes(op)[1]);
        lemma_read_keeps_op_code(buf, len);
    }
}

/// A packet read from a buffer has the operation code of the buffer's first
/// two bytes.
pub proof fn lemma_read_keeps_op_code(buf: Seq<u8>, len: int)
    ensures
        parsed(buf, len) matches Ok(q) ==> opcode_value(model_opcode(q)) == be_value(buf[0], buf[1]),
{
}

/// A read or write request is the filename and the mode, each a
/// zero-terminated string after the operation code; whatever follows the
/// mode's terminator in the packet (such as the options of RFC 2347) is
/// ignored. Reading such a buffer gives exactly the request of those two
/// strings, for every packet length that covers both terminators.
pub proof fn lemma_request_ignores_trailing_bytes(
    buf: Seq<u8>,
    len: int,
    op: OpCode,
    filename: Seq<char>,
    mode: Seq<char>,
)
    requires
        op == OpCode::RRQ || op == OpCode::WRQ,
        buf.len() == MAX_PACKET_SIZE,
        be_value(buf[0], buf[1]) == opcode_value(op),
        !filename.contains('\0'),
        !mode.contains('\0'),
        utf8(filename).len() + utf8(mode).len() + 4 <= MAX_PACKET_SIZE,
        utf8(filename).len() + utf8(mode).len() + 4 <= len,
        buf.subrange(2, 2 + utf8(filename).len() as int) == utf8(filename),
        buf[2 + utf8(filename).len() as int] == 0,
        buf.subrange(
            3 + utf8(filename).len() as int,
            3 + utf8(filename).len() as int + utf8(mode).len() as int,
        ) == utf8(mode),
        buf[3 + utf8(filename).len() as int + utf8(mode).len() as int] == 0,
    ensures
        read_safe(buf, len),
        parsed(buf, len) == Ok::<PacketModel, PacketErrKind>(
            if op == OpCode::RRQ {
                PacketModel::Rrq { filename, mode }
            } else {
                PacketModel::Wrq { filename, mode }
            },
        ),
{
    let fl = utf8(filename).len() as int;
    lemma_string_at(buf, len, 2, filename);
    lemma_string_at(buf, len, 3 + fl, mode);
}

} // verus!
