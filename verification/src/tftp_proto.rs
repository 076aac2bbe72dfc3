//! The TFTP protocol of one transfer, as a state machine: each received packet
//! gives the next state and what the caller has to do (read the next block of
//! the file, write a block to it, or send a reply).
use crate::packet::{DataBytes, ErrorCode, Packet, PacketModel};
use vstd::prelude::*;

verus! {

/// The outcome of processing a received packet.
#[derive(Debug, PartialEq)]
pub enum TftpResult {
    /// Indicates the packet should be sent back to the client,
    /// and the transfer may continue
    Reply(Packet),
    /// Signals the calling code that it should resend the last packet
    Repeat,
    /// Indicates that the packet (if any) should be sent back to the client,
    /// and the transfer is considered terminated
    Done(Option<Packet>),
    /// Indicates an error encountered while processing the packet
    Error(TftpError),
}

/// Errors of processing a received packet.
#[derive(Debug, PartialEq, Eq, Clone, Copy, Structural)]
pub enum TftpError {
    /// The is already running and cannot be restarted
    TransferAlreadyRunning,
    /// The received packet type cannot be used to initiate a transfer
    NotIniatingPacket,
}

/// The content of a `TftpResult`.
pub enum ResultModel {
    Reply(PacketModel),
    Repeat,
    Done(Option<PacketModel>),
    Error(TftpError),
}

impl View for TftpResult {
    type V = ResultModel;

    open spec fn view(&self) -> ResultModel {
        match self {
            TftpResult::Reply(p) => ResultModel::Reply(p@),
            TftpResult::Repeat => ResultModel::Repeat,
            TftpResult::Done(None) => ResultModel::Done(None),
            TftpResult::Done(Some(p)) => ResultModel::Done(Some(p@)),
            TftpResult::Error(e) => ResultModel::Error(*e),
        }
    }
}

/// The block number after `n`, wrapping from 65535 to 0.
pub open spec fn next_block(n: u16) -> u16 {
    if n == 65535 {
        0
    } else {
        (n + 1) as u16
    }
}

/// The block number before `n`, wrapping from 0 to 65535.
pub open spec fn prev_block(n: u16) -> u16 {
    if n == 0 {
        65535
    } else {
        (n - 1) as u16
    }
}

/// An ERROR packet without a message.
pub open spec fn bare_error(code: ErrorCode) -> PacketModel {
    PacketModel::Error { code, msg: Seq::empty() }
}

/// The state of a transfer that receives a file from the client.
pub struct TransferRx {
    expected_block_num: u16,
    complete: bool,
}

/// The state of a transfer that sends a file to the client.
pub struct TransferTx {
    expected_block_num: u16,
    sent_final: bool,
    complete: bool,
}

/// The state of a receiving transfer: the block number it waits for.
pub struct RxState {
    pub expected: u16,
    pub complete: bool,
}

/// The state of a sending transfer: the block number of the last DATA sent,
/// whether that block was the last of the file.
pub struct TxState {
    pub expected: u16,
    pub sent_final: bool,
    pub complete: bool,
}

impl View for TransferRx {
    type V = RxState;

    closed spec fn view(&self) -> RxState {
        RxState { expected: self.expected_block_num, complete: self.complete }
    }
}

impl View for TransferTx {
    type V = TxState;

    closed spec fn view(&self) -> TxState {
        TxState {
            expected: self.expected_block_num,
            sent_final: self.sent_final,
            complete: self.complete,
        }
    }
}

/// The state of an ongoing transfer with one client
pub enum Transfer {
    Rx(TransferRx),
    Tx(TransferTx),
}

/// The state of a transfer.
pub enum TransferModel {
    Rx(RxState),
    Tx(TxState),
}

impl View for Transfer {
    type V = TransferModel;

    open spec fn view(&self) -> TransferModel {
        match self {
            Transfer::Rx(rx) => TransferModel::Rx(rx@),
            Transfer::Tx(tx) => TransferModel::Tx(tx@),
        }
    }
}

/// Whether a transfer is complete.
pub open spec fn model_done(t: TransferModel) -> bool {
    match t {
        TransferModel::Rx(rx) => rx.complete,
        TransferModel::Tx(tx) => tx.complete,
    }
}

/// The same transfer, marked complete.
pub open spec fn completed(t: TransferModel) -> TransferModel {
    match t {
        TransferModel::Rx(rx) => TransferModel::Rx(RxState { complete: true, ..rx }),
        TransferModel::Tx(tx) => TransferModel::Tx(TxState { complete: true, ..tx }),
    }
}

/// What the caller has to do after a transfer processed a packet.
#[derive(Debug, PartialEq)]
pub enum Step {
    /// Nothing but to handle the result.
    Result(TftpResult),
    /// Read the next block of at most 512 bytes of the file and hand it to
    /// `Transfer::block_read`, whose result is the outcome of the packet.
    ReadNext,
    /// Write the first `len` bytes of `data` to the file, then handle `result`.
    Write { data: DataBytes, len: usize, result: TftpResult },
}

/// The content of a `Step`.
pub enum StepModel {
    Result(ResultModel),
    ReadNext,
    Write { data: Seq<u8>, len: usize, result: ResultModel },
}

impl View for Step {
    type V = StepModel;

    open spec fn view(&self) -> StepModel {
        match self {
            Step::Result(r) => StepModel::Result(r@),
            Step::ReadNext => StepModel::ReadNext,
            Step::Write { data, len, result } => StepModel::Write { data: data@, len: *len, result: result@ },
        }
    }
}

/// A sending transfer receives an ACK.
pub open spec fn tx_ack(tx: TxState, ack_block: u16) -> (TransferModel, StepModel) {
    if tx.complete {
        (TransferModel::Tx(tx), StepModel::Result(ResultModel::Done(None)))
    } else if ack_block == prev_block(tx.expected) {
        (TransferModel::Tx(tx), StepModel::Result(ResultModel::Repeat))
    } else if ack_block != tx.expected {
        (
            TransferModel::Tx(TxState { complete: true, ..tx }),
            StepModel::Result(
                ResultModel::Done(
                    Some(PacketModel::Error { code: ErrorCode::UnknownID, msg: "Incorrect block num in ACK"@ }),
                ),
            ),
        )
    } else if tx.sent_final {
        (TransferModel::Tx(TxState { complete: true, ..tx }), StepModel::Result(ResultModel::Done(None)))
    } else {
        (TransferModel::Tx(tx), StepModel::ReadNext)
    }
}

/// A receiving transfer receives a DATA packet.
pub open spec fn rx_data(rx: RxState, block_num: u16, data: Seq<u8>, len: usize) -> (TransferModel, StepModel) {
    if rx.complete {
        (TransferModel::Rx(rx), StepModel::Result(ResultModel::Done(None)))
    } else if block_num != rx.expected {
        (
            TransferModel::Rx(RxState { complete: true, ..rx }),
            StepModel::Result(
                ResultModel::Done(
                    Some(PacketModel::Error { code: ErrorCode::IllegalTFTP, msg: "Data packet lost"@ }),
                ),
            ),
        )
    } else if len < 512 {
        (
            TransferModel::Rx(RxState { expected: next_block(block_num), complete: true }),
            StepModel::Write { data, len, result: ResultModel::Done(Some(PacketModel::Ack(block_num))) },
        )
    } else {
        (
            TransferModel::Rx(RxState { expected: next_block(block_num), complete: false }),
            StepModel::Write { data, len, result: ResultModel::Reply(PacketModel::Ack(block_num)) },
        )
    }
}

/// A transfer receives a packet: its next state and what the caller has to do.
pub open spec fn rx_step(t: TransferModel, p: PacketModel) -> (TransferModel, StepModel) {
    match p {
        PacketModel::Ack(ack_block) => match t {
            TransferModel::Tx(tx) => tx_ack(tx, ack_block),
            TransferModel::Rx(_) => (
                completed(t),
                StepModel::Result(ResultModel::Done(Some(bare_error(ErrorCode::IllegalTFTP)))),
            ),
        },
        PacketModel::Data { block_num, data, len } => match t {
            TransferModel::Rx(rx) => rx_data(rx, block_num, data, len),
            TransferModel::Tx(_) => (
                completed(t),
                StepModel::Result(ResultModel::Done(Some(bare_error(ErrorCode::IllegalTFTP)))),
            ),
        },
        PacketModel::Error { .. } => (completed(t), StepModel::Result(ResultModel::Done(None))),
        _ => if model_done(t) {
            (t, StepModel::Result(ResultModel::Done(None)))
        } else {
            (t, StepModel::Result(ResultModel::Error(TftpError::TransferAlreadyRunning)))
        },
    }
}

/// An ERROR packet with the given code and an empty message.
fn error_packet(code: ErrorCode) -> (res: Packet)
    ensures
        res@ == bare_error(code),
{
    Packet::ERROR { code, msg: String::new() }
}

impl TransferTx {
    fn handle_ack(&mut self, ack_block: u16) -> (res: Step)
        ensures
            (TransferModel::Tx(final(self)@), res@) == tx_ack(old(self)@, ack_block),
    {
        if self.complete {
            Step::Result(TftpResult::Done(None))
        } else if ack_block == self.expected_block_num.wrapping_sub(1) {
            Step::Result(TftpResult::Repeat)
        } else if ack_block != self.expected_block_num {
            self.complete = true;
            Step::Result(
                TftpResult::Done(
                    Some(
                        Packet::ERROR {
                            code: ErrorCode::UnknownID,
                            msg: "Incorrect block num in ACK".to_owned(),
                        },
                    ),
                ),
            )
        } else if self.sent_final {
            self.complete = true;
            Step::Result(TftpResult::Done(None))
        } else {
            Step::ReadNext
        }
    }
}

impl TransferRx {
    fn handle_data(&mut self, block_num: u16, data: DataBytes, len: usize) -> (res: Step)
        ensures
            (TransferModel::Rx(final(self)@), res@) == rx_data(old(self)@, block_num, data@, len),
    {
        if self.complete {
            Step::Result(TftpResult::Done(None))
        } else if block_num != self.expected_block_num {
            self.complete = true;
            Step::Result(
                TftpResult::Done(
                    Some(
                        Packet::ERROR {
                            code: ErrorCode::IllegalTFTP,
                            msg: "Data packet lost".to_owned(),
                        },
                    ),
                ),
            )
        } else {
            self.expected_block_num = block_num.wrapping_add(1);
            if len < 512 {
                self.complete = true;
                Step::Write { data, len, result: TftpResult::Done(Some(Packet::ACK(block_num))) }
            } else {
                Step::Write { data, len, result: TftpResult::Reply(Packet::ACK(block_num)) }
            }
        }
    }
}

impl Transfer {
    /// Starts sending a file whose first block of at most 512 bytes is
    /// `data[..len]`: the transfer and the DATA packet to send.
    pub fn start_read(data: DataBytes, len: usize) -> (res: (Transfer, Packet))
        ensures
            res.0@ == TransferModel::Tx(TxState { expected: 1, sent_final: len < 512, complete: false }),
            res.1@ == (PacketModel::Data { block_num: 1, data: data@, len }),
    {
        let tx = TransferTx { expected_block_num: 1, sent_final: len < 512, complete: false };
        (Transfer::Tx(tx), Packet::DATA { block_num: 1, data, len })
    }

    /// Starts receiving a file: the transfer and the ACK packet to send.
    pub fn start_write() -> (res: (Transfer, Packet))
        ensures
            res.0@ == TransferModel::Rx(RxState { expected: 1, complete: false }),
            res.1@ == PacketModel::Ack(0),
    {
        (Transfer::Rx(TransferRx { expected_block_num: 1, complete: false }), Packet::ACK(0))
    }

    /// Checks to see if the transfer has completed
    pub fn is_done(&self) -> (res: bool)
        ensures
            res == model_done(self@),
    {
        match self {
            Transfer::Tx(tx) => tx.complete,
            Transfer::Rx(rx) => rx.complete,
        }
    }

    /// Process and consume a received packet
    /// When the first `TftpResult::Done` is returned, the transfer is considered complete
    /// and all future calls to rx will also return `TftpResult::Done`
    ///
    /// Transfer completion can be checked via `Transfer::is_done()`
    pub fn rx(&mut self, packet: Packet) -> (res: Step)
        ensures
            (final(self)@, res@) == rx_step(old(self)@, packet@),
    {
        match packet {
            Packet::ACK(ack_block) => self.handle_ack(ack_block),
            Packet::DATA { block_num, data, len } => self.handle_data(block_num, data, len),
            Packet::ERROR { .. } => {
                // receiving an error kills the transfer
                match self {
                    Transfer::Tx(tx) => tx.complete = true,
                    Transfer::Rx(rx) => rx.complete = true,
                }
                Step::Result(TftpResult::Done(None))
            },
            _ => {
                if self.is_done() {
                    Step::Result(TftpResult::Done(None))
                } else {
                    Step::Result(TftpResult::Error(TftpError::TransferAlreadyRunning))
                }
            },
        }
    }

    /// The next block of the file, read after `Step::ReadNext`: the reply that
    /// carries it under the next block number.
    pub fn block_read(&mut self, data: DataBytes, len: usize) -> (res: TftpResult)
        requires
            old(self)@ is Tx,
        ensures
            final(self)@ == TransferModel::Tx(
                TxState {
                    expected: next_block(old(self)@->Tx_0.expected),
                    sent_final: len < 512,
                    complete: old(self)@->Tx_0.complete,
                },
            ),
            res@ == ResultModel::Reply(
                PacketModel::Data { block_num: next_block(old(self)@->Tx_0.expected), data: data@, len },
            ),
    {
        match self {
            Transfer::Tx(tx) => {
                tx.sent_final = len < 512;
                tx.expected_block_num = tx.expected_block_num.wrapping_add(1);
                TftpResult::Reply(Packet::DATA { block_num: tx.expected_block_num, data, len })
            },
            // excluded by the precondition
            Transfer::Rx(_) => TftpResult::Repeat,
        }
    }

    fn handle_ack(&mut self, ack_block: u16) -> (res: Step)
        ensures
            (final(self)@, res@) == rx_step(old(self)@, PacketModel::Ack(ack_block)),
    {
        match self {
            Transfer::Tx(tx) => tx.handle_ack(ack_block),
            Transfer::Rx(rx) => {
                // wrong kind of packet, kill transfer
                rx.complete = true;
                Step::Result(TftpResult::Done(Some(error_packet(ErrorCode::IllegalTFTP))))
            },
        }
    }

    fn handle_data(&mut self, block_num: u16, data: DataBytes, len: usize) -> (res: Step)
        ensures
            (final(self)@, res@) == rx_step(
                old(self)@,
                PacketModel::Data { block_num, data: data@, len },
            ),
    {
        match self {
            Transfer::Rx(rx) => rx.handle_data(block_num, data, len),
            Transfer::Tx(tx) => {
                // wrong kind of packet, kill transfer
                tx.complete = true;
                Step::Result(TftpResult::Done(Some(error_packet(ErrorCode::IllegalTFTP))))
            },
        }
    }
}

/// Where the server reads and writes files, and whether it accepts writes.
pub struct IOPolicyCfg {
    /// Specifies that write requests are refused
    pub readonly: bool,
    /// The directory the files are served from instead of the current one
    pub path: Option<String>,
}

impl Default for IOPolicyCfg {
    /// Writes accepted, files served from the current directory.
    fn default() -> (res: IOPolicyCfg)
        ensures
            !res.readonly,
            res.path is None,
    {
        IOPolicyCfg { readonly: false, path: None }
    }
}

/// The file name that a requested name stands for under an optional directory.
pub open spec fn resolved(path: Option<Seq<char>>, filename: Seq<char>) -> Seq<char> {
    match path {
        Some(p) => p + "/"@ + filename,
        None => filename,
    }
}

/// The end of the path component that starts at `i`: the index of the next
/// `/`, or the length of the path.
pub open spec fn component_end(f: Seq<char>, i: int) -> int
    decreases f.len() - i,
{
    if i >= f.len() {
        f.len() as int
    } else if f[i] == '/' {
        i
    } else {
        component_end(f, i + 1)
    }
}

/// The component `f[i..e]` is `..`.
pub open spec fn is_parent(f: Seq<char>, i: int, e: int) -> bool {
    e == i + 2 && f[i] == '.' && f[i + 1] == '.'
}

/// The component `f[i..e]` is empty or `.`, and stays where it is.
pub open spec fn is_here(f: Seq<char>, i: int, e: int) -> bool {
    e == i || (e == i + 1 && f[i] == '.')
}

/// Walking the components from the one at `i`, `depth` levels below the
/// served directory, some `..` climbs above it.
pub open spec fn climbs_out(f: Seq<char>, i: int, depth: int) -> bool
    decreases f.len() - i,
{
    if i < 0 || i > f.len() {
        false
    } else {
        proof {
            lemma_component_end(f, i);
        }
        let e = component_end(f, i);
        if is_parent(f, i, e) {
            depth == 0 || (e < f.len() && climbs_out(f, e + 1, depth - 1))
        } else if is_here(f, i, e) {
            e < f.len() && climbs_out(f, e + 1, depth)
        } else {
            e < f.len() && climbs_out(f, e + 1, depth + 1)
        }
    }
}

/// A requested name that leaves the served directory: an absolute path, a
/// path under the home directory (a first component `~`), or one whose `..`
/// components climb above the served directory.
pub open spec fn leaves_directory(f: Seq<char>) -> bool {
    ||| f.len() > 0 && f[0] == '/'
    ||| f.len() > 0 && f[0] == '~' && (f.len() == 1 || f[1] == '/')
    ||| climbs_out(f, 0, 0)
}

/// Where a component ends, found from `i` on.
pub proof fn lemma_component_end(f: Seq<char>, i: int)
    requires
        0 <= i <= f.len(),
    ensures
        i <= component_end(f, i) <= f.len(),
        component_end(f, i) < f.len() ==> f[component_end(f, i)] == '/',
    decreases f.len() - i,
{
    if i < f.len() && f[i] != '/' {
        lemma_component_end(f, i + 1);
    }
}

/// Whether a requested name leaves the served directory.
pub fn is_outside(filename: &String) -> (res: bool)
    ensures
        res == leaves_directory(filename@),
{
    let s = filename.as_str();
    let ghost f = s@;
    let n = s.unicode_len();
    if n > 0 {
        let first = s.get_char(0);
        if first == '/' {
            return true;
        }
        if first == '~' && (n == 1 || s.get_char(1) == '/') {
            return true;
        }
    }
    let mut i: usize = 0;
    let mut depth: usize = 0;
    loop
        invariant
            n == f.len(),
            f == s@,
            f == filename@,
            0 <= i <= n,
            depth <= i,
            climbs_out(f, 0, 0) == climbs_out(f, i as int, depth as int),
            !(n > 0 && f[0] == '/'),
            !(n > 0 && f[0] == '~' && (n == 1 || f[1] == '/')),
        decreases n - i,
    {
        let mut e = i;
        while e < n && s.get_char(e) != '/'
            invariant
                n == f.len(),
                f == s@,
                i <= e <= n,
                component_end(f, i as int) == component_end(f, e as int),
            decreases n - e,
        {
            e = e + 1;
        }
        proof {
            lemma_component_end(f, e as int);
        }
        assert(component_end(f, i as int) == e);
        let parent = e - i == 2 && s.get_char(i) == '.' && s.get_char(i + 1) == '.';
        let here = e == i || (e - i == 1 && s.get_char(i) == '.');
        if parent {
            if depth == 0 {
                return true;
            }
            depth = depth - 1;
        } else if !here {
            depth = depth + 1;
        }
        if e >= n {
            return false;
        }
        i = e + 1;
    }
}

/// What to do about a packet that may start a transfer.
#[derive(Debug, PartialEq)]
pub enum Initial {
    /// The packet cannot start a transfer; nothing is sent.
    Refuse(TftpError),
    /// Send this packet; no transfer starts.
    Reply(Packet),
    /// Open the named file for reading, read its first block and answer
    /// with `read_opened`.
    Read(String),
    /// Create the named file and answer with `write_created`.
    Write(String),
}

/// The content of an `Initial`.
pub enum InitialModel {
    Refuse(TftpError),
    Reply(PacketModel),
    Read(Seq<char>),
    Write(Seq<char>),
}

impl View for Initial {
    type V = InitialModel;

    open spec fn view(&self) -> InitialModel {
        match self {
            Initial::Refuse(e) => InitialModel::Refuse(*e),
            Initial::Reply(p) => InitialModel::Reply(p@),
            Initial::Read(f) => InitialModel::Read(f@),
            Initial::Write(f) => InitialModel::Write(f@),
        }
    }
}

/// The decision on a packet that may start a transfer: only read and write
/// requests do; the "mail" mode is refused with `NoUser` and the "netascii"
/// mode with `NotDefined`; a name that leaves the served directory with
/// `AccessViolation`; a read-only server refuses writes as if the file
/// existed.
pub open spec fn initial_step(readonly: bool, path: Option<Seq<char>>, p: PacketModel) -> InitialModel {
    match p {
        PacketModel::Rrq { filename, mode } => if mode == "mail"@ {
            InitialModel::Reply(bare_error(ErrorCode::NoUser))
        } else if mode == "netascii"@ {
            InitialModel::Reply(bare_error(ErrorCode::NotDefined))
        } else if leaves_directory(filename) {
            InitialModel::Reply(bare_error(ErrorCode::AccessViolation))
        } else {
            InitialModel::Read(resolved(path, filename))
        },
        PacketModel::Wrq { filename, mode } => if mode == "mail"@ {
            InitialModel::Reply(bare_error(ErrorCode::NoUser))
        } else if mode == "netascii"@ {
            InitialModel::Reply(bare_error(ErrorCode::NotDefined))
        } else if leaves_directory(filename) {
            InitialModel::Reply(bare_error(ErrorCode::AccessViolation))
        } else if readonly {
            InitialModel::Reply(bare_error(ErrorCode::FileExists))
        } else {
            InitialModel::Write(resolved(path, filename))
        },
        _ => InitialModel::Refuse(TftpError::NotIniatingPacket),
    }
}

/// Whether `s` holds the text `t`.
fn same_text(s: &String, t: &str) -> (res: bool)
    ensures
        res == (s@ == t@),
{
    *s == t.to_owned()
}

impl IOPolicyCfg {
    /// The optional directory, as characters.
    pub open spec fn path_view(&self) -> Option<Seq<char>> {
        match self.path {
            Some(p) => Some(p@),
            None => None,
        }
    }

    /// The file name that a requested name stands for.
    pub fn resolve(&self, filename: &String) -> (res: String)
        ensures
            res@ == resolved(self.path_view(), filename@),
    {
        match &self.path {
            Some(p) => {
                let mut s = p.clone();
                s.append("/");
                s.append(filename.as_str());
                s
            },
            None => filename.clone(),
        }
    }

    /// The file that a write of the requested name creates, or `None` when
    /// the server is read-only.
    pub fn write_target(&self, filename: &String) -> (res: Option<String>)
        ensures
            match res {
                Some(t) => !self.readonly && t@ == resolved(self.path_view(), filename@),
                None => self.readonly,
            },
    {
        if self.readonly {
            None
        } else {
            Some(self.resolve(filename))
        }
    }

    /// Signals the receipt of a transfer-initiating packet (either RRQ or WRQ)
    /// and decides how it is answered.
    pub fn rx_initial(&self, packet: Packet) -> (res: Initial)
        ensures
            res@ == initial_step(self.readonly, self.path_view(), packet@),
    {
        match packet {
            Packet::RRQ { filename, mode } => {
                if same_text(&mode, "mail") {
                    Initial::Reply(error_packet(ErrorCode::NoUser))
                } else if same_text(&mode, "netascii") {
                    Initial::Reply(error_packet(ErrorCode::NotDefined))
                } else if is_outside(&filename) {
                    Initial::Reply(error_packet(ErrorCode::AccessViolation))
                } else {
                    Initial::Read(self.resolve(&filename))
                }
            },
            Packet::WRQ { filename, mode } => {
                if same_text(&mode, "mail") {
                    Initial::Reply(error_packet(ErrorCode::NoUser))
                } else if same_text(&mode, "netascii") {
                    Initial::Reply(error_packet(ErrorCode::NotDefined))
                } else if is_outside(&filename) {
                    Initial::Reply(error_packet(ErrorCode::AccessViolation))
                } else {
                    match self.write_target(&filename) {
                        Some(target) => Initial::Write(target),
                        None => Initial::Reply(error_packet(ErrorCode::FileExists)),
                    }
                }
            },
            _ => Initial::Refuse(TftpError::NotIniatingPacket),
        }
    }
}

/// The answer to a read request once its file was opened, or not: with the
/// file's first block of at most 512 bytes, the transfer that sends the file
/// and the DATA packet of that block; without it, no transfer and a
/// `FileNotFound` error.
pub fn read_opened(first_block: Option<(DataBytes, usize)>) -> (res: (Option<Transfer>, Packet))
    ensures
        match first_block {
            Some((data, len)) => {
                &&& res.0 matches Some(t) && t@ == TransferModel::Tx(
                    TxState { expected: 1, sent_final: len < 512, complete: false },
                )
                &&& res.1@ == (PacketModel::Data { block_num: 1, data: data@, len })
            },
            None => res.0 is None && res.1@ == bare_error(ErrorCode::FileNotFound),
        },
{
    match first_block {
        Some((data, len)) => {
            let (transfer, packet) = Transfer::start_read(data, len);
            (Some(transfer), packet)
        },
        None => (None, error_packet(ErrorCode::FileNotFound)),
    }
}

/// The answer to a write request once its file was created, or not: if it
/// was, the transfer that receives the file and `ACK(0)`; if not, no
/// transfer and a `FileExists` error.
pub fn write_created(created: bool) -> (res: (Option<Transfer>, Packet))
    ensures
        created ==> (res.0 matches Some(t) && t@ == TransferModel::Rx(
            RxState { expected: 1, complete: false },
        )),
        created ==> res.1@ == PacketModel::Ack(0),
        !created ==> res.0 is None && res.1@ == bare_error(ErrorCode::FileExists),
{
    if created {
        let (transfer, packet) = Transfer::start_write();
        (Some(transfer), packet)
    } else {
        (None, error_packet(ErrorCode::FileExists))
    }
}

/// The result that a step hands on, directly or after writing.
pub open spec fn step_result(s: StepModel) -> Option<ResultModel> {
    match s {
        StepModel::Result(r) => Some(r),
        StepModel::Write { result, .. } => Some(result),
        StepModel::ReadNext => None,
    }
}

/// Whether a packet is a read or write request.
pub open spec fn is_request(p: PacketModel) -> bool {
    p is Rrq || p is Wrq
}

/// When a packet's outcome is `Done`, the transfer is complete afterwards.
pub proof fn lemma_done_completes(t: TransferModel, p: PacketModel)
    ensures
        step_result(rx_step(t, p).1) matches Some(ResultModel::Done(_)) ==> model_done(rx_step(t, p).0),
{
}

/// A complete transfer stays complete, and every later packet has the
/// outcome `Done`: an ERROR packet, an ACK to a sending transfer, a DATA
/// packet to a receiving one and a read or write request have `Done` with
/// nothing to send.
pub proof fn lemma_complete_is_final(t: TransferModel, p: PacketModel)
    requires
        model_done(t),
    ensures
        model_done(rx_step(t, p).0),
        rx_step(t, p).1 matches StepModel::Result(ResultModel::Done(_)),
        (p is Error || (p is Ack && t is Tx) || (p is Data && t is Rx) || is_request(p)) ==> rx_step(
            t,
            p,
        ).1 == StepModel::Result(ResultModel::Done(None)),
{
}

/// A transfer that is not complete never is afterwards unless the outcome is
/// `Done`: a `Reply`, `Repeat` or a block to read keeps it going.
pub proof fn lemma_incomplete_until_done(t: TransferModel, p: PacketModel)
    requires
        !model_done(t),
    ensures
        model_done(rx_step(t, p).0) <==> step_result(rx_step(t, p).1) matches Some(
            ResultModel::Done(_),
        ),
{
}

/// A sending transfer that gets the ACK of its previous block again answers
/// `Repeat` and changes nothing; the ACK of its current block asks for the
/// next one unless that block was the last.
pub proof fn lemma_tx_acks(tx: TxState)
    requires
        !tx.complete,
    ensures
        rx_step(TransferModel::Tx(tx), PacketModel::Ack(prev_block(tx.expected))) == (
            TransferModel::Tx(tx),
            StepModel::Result(ResultModel::Repeat),
        ),
        !tx.sent_final ==> rx_step(TransferModel::Tx(tx), PacketModel::Ack(tx.expected)) == (
            TransferModel::Tx(tx),
            StepModel::ReadNext,
        ),
        tx.sent_final ==> rx_step(TransferModel::Tx(tx), PacketModel::Ack(tx.expected)) == (
            TransferModel::Tx(TxState { complete: true, ..tx }),
            StepModel::Result(ResultModel::Done(None)),
        ),
{
    assert(prev_block(tx.expected) != tx.expected);
}

/// A receiving transfer writes the DATA block it waits for, acknowledges it
/// by its number and then waits for the next number; a short block (under
/// 512 bytes) ends the transfer.
pub proof fn lemma_rx_data(rx: RxState, data: Seq<u8>, len: usize)
    requires
        !rx.complete,
    ensures
        rx_step(TransferModel::Rx(rx), PacketModel::Data { block_num: rx.expected, data, len }) == (
            TransferModel::Rx(RxState { expected: next_block(rx.expected), complete: len < 512 }),
            StepModel::Write {
                data,
                len,
                result: if len < 512 {
                    ResultModel::Done(Some(PacketModel::Ack(rx.expected)))
                } else {
                    ResultModel::Reply(PacketModel::Ack(rx.expected))
                },
            },
        ),
{
}

/// Receiving an ERROR packet ends every transfer, sending or receiving,
/// complete or not: the transfer is complete afterwards, its block numbers
/// are unchanged, and nothing is sent back.
pub proof fn lemma_error_ends_transfer(t: TransferModel, code: ErrorCode, msg: Seq<char>)
    ensures
        rx_step(t, PacketModel::Error { code, msg }).1 == StepModel::Result(ResultModel::Done(None)),
        model_done(rx_step(t, PacketModel::Error { code, msg }).0),
        match (t, rx_step(t, PacketModel::Error { code, msg }).0) {
            (TransferModel::Tx(a), TransferModel::Tx(b)) => a.expected == b.expected && a.sent_final
                == b.sent_final,
            (TransferModel::Rx(a), TransferModel::Rx(b)) => a.expected == b.expected,
            _ => false,
        },
{
}

/// A sending transfer that is not complete and gets an ACK for neither the
/// block it sent last nor the one before ends with an `UnknownID` error,
/// whether or not that block was the last of the file.
pub proof fn lemma_tx_wrong_ack(tx: TxState, ack_block: u16)
    requires
        !tx.complete,
        ack_block != tx.expected,
        ack_block != prev_block(tx.expected),
    ensures
        rx_step(TransferModel::Tx(tx), PacketModel::Ack(ack_block)) == (
            TransferModel::Tx(
                TxState { expected: tx.expected, sent_final: tx.sent_final, complete: true },
            ),
            StepModel::Result(
                ResultModel::Done(
                    Some(
                        PacketModel::Error {
                            code: ErrorCode::UnknownID,
                            msg: "Incorrect block num in ACK"@,
                        },
                    ),
                ),
            ),
        ),
{
}

/// The read-only flag concerns writes only: a read request is answered the
/// same on a read-only server, and a read request in another mode than
/// "mail" or "netascii", for a name inside the served directory, reads that
/// name under the directory.
pub proof fn lemma_readonly_serves_reads(
    path: Option<Seq<char>>,
    filename: Seq<char>,
    mode: Seq<char>,
)
    ensures
        initial_step(true, path, PacketModel::Rrq { filename, mode }) == initial_step(
            false,
            path,
            PacketModel::Rrq { filename, mode },
        ),
        mode != "mail"@ && mode != "netascii"@ && !leaves_directory(filename) ==> initial_step(
            true,
            path,
            PacketModel::Rrq { filename, mode },
        ) == InitialModel::Read(resolved(path, filename)),
{
}

/// A path component: not empty, without `/`, and neither `.` nor `..`.
pub open spec fn ordinary(c: Seq<char>) -> bool {
    &&& c.len() > 0
    &&& !c.contains('/')
    &&& c != seq!['.']
    &&& c != seq!['.', '.']
}

/// The name that goes down through the components `cs` and climbs back up
/// with one `..` each, then continues with `rest`: `c1/c2/../../rest`.
pub open spec fn down_and_up(cs: Seq<Seq<char>>, rest: Seq<char>) -> Seq<char>
    decreases cs.len(),
{
    if cs.len() == 0 {
        rest
    } else {
        cs[0] + seq!['/'] + down_and_up(cs.drop_first(), seq!['.', '.', '/'] + rest)
    }
}

/// A component without `/` ends at the end of the name.
proof fn lemma_component_end_no_slash(f: Seq<char>, i: int)
    requires
        0 <= i <= f.len(),
        forall|j: int| i <= j < f.len() ==> f[j] != '/',
    ensures
        component_end(f, i) == f.len(),
    decreases f.len() - i,
{
    if i < f.len() {
        lemma_component_end_no_slash(f, i + 1);
    }
}

/// Component ends in a name are those of its suffix, shifted.
proof fn lemma_component_end_shift(p: Seq<char>, r: Seq<char>, i: int)
    requires
        0 <= i <= r.len(),
    ensures
        component_end(p + r, p.len() + i) == p.len() + component_end(r, i),
    decreases r.len() - i,
{
    if i < r.len() {
        assert((p + r)[p.len() + i] == r[i]);
        lemma_component_end_shift(p, r, i + 1);
    }
}

/// Walking a name from inside its suffix is walking the suffix.
proof fn lemma_climbs_out_shift(p: Seq<char>, r: Seq<char>, i: int, depth: int)
    requires
        0 <= i <= r.len(),
    ensures
        climbs_out(p + r, p.len() + i, depth) == climbs_out(r, i, depth),
    decreases r.len() - i,
{
    let f = p + r;
    lemma_component_end_shift(p, r, i);
    lemma_component_end(r, i);
    let e = component_end(r, i);
    if i + 1 < f.len() - p.len() + 1 && e >= i + 1 {
        assert(f[p.len() + i] == r[i]);
    }
    if e >= i + 2 {
        assert(f[p.len() + i + 1] == r[i + 1]);
    }
    if e < r.len() {
        lemma_climbs_out_shift(p, r, e + 1, depth - 1);
        lemma_climbs_out_shift(p, r, e + 1, depth);
        lemma_climbs_out_shift(p, r, e + 1, depth + 1);
    }
}

/// How the depth below the served directory is counted: a name's first
/// component `c` followed by `/` and the rest of the name adds a level when
/// it is an ordinary component, removes one when it is `..` (leaving the
/// directory when there is none to remove), and keeps the level when it is
/// empty or `.`; a last component `c` leaves the directory only when it is
/// `..` at the top level.
pub proof fn lemma_depth_counting(c: Seq<char>, rest: Seq<char>, depth: int)
    requires
        !c.contains('/'),
    ensures
        climbs_out(c, 0, depth) == (c == seq!['.', '.'] && depth == 0),
        climbs_out(c + seq!['/'] + rest, 0, depth) == if c == seq!['.', '.'] {
            depth == 0 || climbs_out(rest, 0, depth - 1)
        } else if c.len() == 0 || c == seq!['.'] {
            climbs_out(rest, 0, depth)
        } else {
            climbs_out(rest, 0, depth + 1)
        },
{
    assert forall|j: int| 0 <= j < c.len() implies c[j] != '/' by {
        if c[j] == '/' {
            assert(c.contains('/'));
        }
    }
    lemma_component_end_no_slash(c, 0);
    assert(is_parent(c, 0, c.len() as int) <==> c == seq!['.', '.']) by {
        if is_parent(c, 0, c.len() as int) {
            assert(c =~= seq!['.', '.']);
        }
    }
    assert(is_here(c, 0, c.len() as int) <==> (c.len() == 0 || c == seq!['.'])) by {
        if c.len() == 1 && c[0] == '.' {
            assert(c =~= seq!['.']);
        }
    }
    let p = c + seq!['/'];
    let f = p + rest;
    assert forall|j: int| 0 <= j < c.len() implies f[j] == c[j] && f[j] != '/' by {}
    assert(f[c.len() as int] == '/');
    lemma_component_end_shift(c, seq!['/'] + rest, 0);
    lemma_component_end_no_slash(c, 0);
    assert(component_end(f, 0) == c.len()) by {
        assert(c + (seq!['/'] + rest) =~= f);
        assert(component_end(seq!['/'] + rest, 0) == 0);
        lemma_component_end_prefix(c, seq!['/'] + rest, 0);
    }
    assert(is_parent(f, 0, c.len() as int) == is_parent(c, 0, c.len() as int));
    assert(is_here(f, 0, c.len() as int) == is_here(c, 0, c.len() as int));
    lemma_climbs_out_shift(p, rest, 0, depth - 1);
    lemma_climbs_out_shift(p, rest, 0, depth);
    lemma_climbs_out_shift(p, rest, 0, depth + 1);
    assert(p.len() + 0 == c.len() + 1);
}

/// Within a leading run without `/`, a component ends where it ends in the
/// remainder after that run.
proof fn lemma_component_end_prefix(c: Seq<char>, r: Seq<char>, i: int)
    requires
        0 <= i <= c.len(),
        forall|j: int| 0 <= j < c.len() ==> c[j] != '/',
    ensures
        component_end(c + r, i) == c.len() + component_end(r, 0),
    decreases c.len() - i,
{
    if i < c.len() {
        assert((c + r)[i] == c[i]);
        lemma_component_end_prefix(c, r, i + 1);
    } else {
        lemma_component_end_shift(c, r, 0);
    }
}

/// Going down through ordinary components and climbing back up with as many
/// `..` components stays at the same depth: `c1/.../ck/../../rest` leaves the
/// directory exactly when `rest` does.
pub proof fn lemma_down_and_up(cs: Seq<Seq<char>>, rest: Seq<char>, depth: int)
    requires
        depth >= 0,
        forall|i: int| 0 <= i < cs.len() ==> ordinary(#[trigger] cs[i]),
    ensures
        climbs_out(down_and_up(cs, rest), 0, depth) == climbs_out(rest, 0, depth),
    decreases cs.len(),
{
    if cs.len() > 0 {
        let c = cs[0];
        let tail = cs.drop_first();
        let up = seq!['.', '.', '/'] + rest;
        assert forall|i: int| 0 <= i < tail.len() implies ordinary(#[trigger] tail[i]) by {
            assert(tail[i] == cs[i + 1]);
        }
        lemma_down_and_up(tail, up, depth + 1);
        assert(ordinary(c));
        lemma_depth_counting(c, down_and_up(tail, up), depth);
        assert(!seq!['.', '.'].contains('/')) by {
            assert(seq!['.', '.'][0] != '/' && seq!['.', '.'][1] != '/');
        }
        assert(up =~= seq!['.', '.'] + seq!['/'] + rest);
        lemma_depth_counting(seq!['.', '.'], rest, depth + 1);
    }
}

/// A name that goes down through ordinary components (the first not `~`)
/// and back up, then ends in an ordinary file name, stays inside the served
/// directory: `a/b/../../c.txt` is served.
pub proof fn lemma_down_and_up_stays_inside(cs: Seq<Seq<char>>, name: Seq<char>)
    requires
        cs.len() > 0,
        cs[0] != seq!['~'],
        forall|i: int| 0 <= i < cs.len() ==> ordinary(#[trigger] cs[i]),
        ordinary(name),
    ensures
        !leaves_directory(down_and_up(cs, name)),
{
    lemma_down_and_up(cs, name, 0);
    lemma_depth_counting(name, Seq::empty(), 0);
    let f = down_and_up(cs, name);
    let c = cs[0];
    assert(ordinary(c));
    assert(f == c + seq!['/'] + down_and_up(cs.drop_first(), seq!['.', '.', '/'] + name));
    assert(f[0] == c[0]);
    if c[0] == '/' {
        assert(c.contains('/'));
    }
    if c[0] == '~' {
        if c.len() == 1 {
            assert(c =~= seq!['~']);
        } else {
            assert(f[1] == c[1]);
            if c[1] == '/' {
                assert(c.contains('/'));
            }
        }
    }
}

} // verus!
