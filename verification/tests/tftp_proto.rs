use std::collections::{HashMap, HashSet};
use std::io::{self, Read, Write};
use std::iter::Take;
use tftp_server::packet::{DataBytes, ErrorCode, Packet};
use tftp_server::tftp_proto::{
    read_opened, write_created, IOPolicyCfg, Initial, Step, TftpError, TftpResult, Transfer,
};

/// File access of the harness, as the server's IO adapters provide it.
trait IOAdapter {
    type R: Read;
    type W: Write;
    fn open_read(&self, filename: &str) -> io::Result<Self::R>;
    fn create_new(&mut self, filename: &str) -> io::Result<Self::W>;
}

/// Applies the read-only and directory policy of the library to an adapter.
struct IOPolicyProxy<IO: IOAdapter> {
    io: IO,
    cfg: IOPolicyCfg,
}

impl<IO: IOAdapter> IOPolicyProxy<IO> {
    fn new(io: IO, cfg: IOPolicyCfg) -> Self {
        IOPolicyProxy { io, cfg }
    }

    fn open_read(&self, filename: &str) -> io::Result<IO::R> {
        self.io.open_read(&self.cfg.resolve(&filename.to_string()))
    }

    fn create_new(&mut self, filename: &str) -> io::Result<IO::W> {
        match self.cfg.write_target(&filename.to_string()) {
            Some(target) => self.io.create_new(&target),
            None => Err(io::Error::new(io::ErrorKind::PermissionDenied, "cannot write")),
        }
    }
}

/// Reads up to 512 bytes into a data block.
fn read_512<R: Read>(r: &mut R) -> (DataBytes, usize) {
    let mut v = vec![];
    r.take(512).read_to_end(&mut v).unwrap();
    let mut block = [0; 512];
    block[..v.len()].copy_from_slice(&v);
    (DataBytes(block), v.len())
}

/// A transfer with the file it reads or writes.
struct Xfer<IO: IOAdapter> {
    transfer: Transfer,
    reader: Option<IO::R>,
    writer: Option<IO::W>,
}

impl<IO: IOAdapter> Xfer<IO> {
    fn is_done(&self) -> bool {
        self.transfer.is_done()
    }

    fn rx(&mut self, packet: Packet) -> TftpResult {
        match self.transfer.rx(packet) {
            Step::Result(result) => result,
            Step::ReadNext => {
                let (data, len) = read_512(self.reader.as_mut().unwrap());
                self.transfer.block_read(data, len)
            }
            Step::Write { data, len, result } => {
                self.writer.as_mut().unwrap().write_all(&data.0[..len]).unwrap();
                result
            }
        }
    }
}

struct TftpServerProto<IO: IOAdapter> {
    io_proxy: IOPolicyProxy<IO>,
}

impl<IO: IOAdapter> TftpServerProto<IO> {
    fn new(io: IO, cfg: IOPolicyCfg) -> Self {
        TftpServerProto {
            io_proxy: IOPolicyProxy::new(io, cfg),
        }
    }

    fn rx_initial(&mut self, packet: Packet) -> (Option<Xfer<IO>>, Result<Packet, TftpError>) {
        match self.io_proxy.cfg.rx_initial(packet) {
            Initial::Refuse(e) => (None, Err(e)),
            Initial::Reply(p) => (None, Ok(p)),
            Initial::Read(name) => match self.io_proxy.io.open_read(&name) {
                Ok(mut r) => {
                    let (transfer, p) = read_opened(Some(read_512(&mut r)));
                    let xfer = transfer.map(|transfer| Xfer {
                        transfer,
                        reader: Some(r),
                        writer: None,
                    });
                    (xfer, Ok(p))
                }
                Err(_) => (None, Ok(read_opened(None).1)),
            },
            Initial::Write(name) => match self.io_proxy.io.create_new(&name) {
                Ok(w) => {
                    let (transfer, p) = write_created(true);
                    let xfer = transfer.map(|transfer| Xfer {
                        transfer,
                        reader: None,
                        writer: Some(w),
                    });
                    (xfer, Ok(p))
                }
                Err(_) => (None, Ok(write_created(false).1)),
            },
        }
    }
}

/// A DATA packet holding the bytes of `v`.
fn data_packet(block_num: u16, v: Vec<u8>) -> Packet {
    let mut block = [0; 512];
    block[..v.len()].copy_from_slice(&v);
    Packet::DATA {
        block_num,
        data: DataBytes(block),
        len: v.len(),
    }
}

fn error_packet(code: ErrorCode, msg: &str) -> Packet {
    Packet::ERROR {
        code,
        msg: msg.to_string(),
    }
}

#[test]
fn initial_ack_err() {
    let iof = TestIoFactory::new();
    let mut server = TftpServerProto::new(iof, Default::default());
    let (xfer, res) = server.rx_initial(Packet::ACK(0));
    assert_eq!(res, Err(TftpError::NotIniatingPacket));
    assert!(xfer.is_none());
}

#[test]
fn initial_data_err() {
    let iof = TestIoFactory::new();
    let mut server = TftpServerProto::new(iof, Default::default());
    let (xfer, res) = server.rx_initial(data_packet(1, vec![]));
    assert_eq!(res, Err(TftpError::NotIniatingPacket));
    assert!(xfer.is_none());
}

#[test]
fn rrq_no_file_gets_error() {
    let iof = TestIoFactory::new();
    let file = "textfile".to_owned();
    let mut server = TftpServerProto::new(iof, Default::default());
    let (xfer, res) = server.rx_initial(Packet::RRQ {
        filename: file,
        mode: "octet".into(),
    });
    assert!(matches!(
        res,
        Ok(Packet::ERROR {
            code: ErrorCode::FileNotFound,
            ..
        })
    ));
    assert!(xfer.is_none());
}

#[test]
fn rrq_mail_gets_error() {
    let (mut server, file, _) = rrq_fixture(132);
    let (xfer, res) = server.rx_initial(Packet::RRQ {
        filename: file,
        mode: "mail".into(),
    });
    assert_eq!(res, Ok(error_packet(ErrorCode::NoUser, "")));
    assert!(xfer.is_none());
}

#[test]
fn rrq_netascii_gets_error() {
    let (mut server, file, _) = rrq_fixture(132);
    let (xfer, res) = server.rx_initial(Packet::RRQ {
        filename: file,
        mode: "netascii".into(),
    });
    assert_eq!(res, Ok(error_packet(ErrorCode::NotDefined, "")));
    assert!(xfer.is_none());
}

#[test]
fn wrq_netascii_gets_error() {
    let (mut server, file, _) = wrq_fixture(132);
    let (xfer, res) = server.rx_initial(Packet::WRQ {
        filename: file,
        mode: "netascii".into(),
    });
    assert_eq!(res, Ok(error_packet(ErrorCode::NotDefined, "")));
    assert!(xfer.is_none());
}

fn rrq_fixture(file_size: usize) -> (TftpServerProto<TestIoFactory>, String, ByteGen) {
    let mut iof = TestIoFactory::new();
    let file = "textfile".to_owned();
    iof.possible_files.insert(file.clone(), file_size);
    iof.server_present_files.insert(file.clone());
    let serv = TftpServerProto::new(iof, Default::default());
    let file_bytes = ByteGen::new(&file);
    (serv, file, file_bytes)
}

#[test]
fn rrq_small_file_ack_end() {
    let (mut server, file, mut file_bytes) = rrq_fixture(132);
    let (xfer, res) = server.rx_initial(Packet::RRQ {
        filename: file,
        mode: "octet".into(),
    });
    assert_eq!(res, Ok(data_packet(1, file_bytes.gen(132))));
    let mut xfer = xfer.unwrap();
    assert!(!xfer.is_done());
    assert_eq!(xfer.rx(Packet::ACK(1)), TftpResult::Done(None));
    assert!(xfer.is_done());
    assert_eq!(xfer.rx(Packet::ACK(0)), TftpResult::Done(None));
}

#[test]
fn rrq_1_block_file() {
    let (mut server, file, mut file_bytes) = rrq_fixture(512);
    let (xfer, res) = server.rx_initial(Packet::RRQ {
        filename: file,
        mode: "octet".into(),
    });
    assert_eq!(res, Ok(data_packet(1, file_bytes.gen(512))));
    let mut xfer = xfer.unwrap();
    assert_eq!(
        xfer.rx(Packet::ACK(1)),
        TftpResult::Reply(data_packet(2, vec![]))
    );
    assert_eq!(xfer.rx(Packet::ACK(2)), TftpResult::Done(None));
}

#[test]
fn rrq_small_file_ack_wrong_block() {
    let (mut server, file, mut file_bytes) = rrq_fixture(132);
    let (xfer, res) = server.rx_initial(Packet::RRQ {
        filename: file,
        mode: "octet".into(),
    });
    assert_eq!(res, Ok(data_packet(1, file_bytes.gen(132))));
    let mut xfer = xfer.unwrap();
    assert_eq!(
        xfer.rx(Packet::ACK(2)),
        TftpResult::Done(Some(error_packet(
            ErrorCode::UnknownID,
            "Incorrect block num in ACK"
        )))
    );
    assert_eq!(xfer.rx(Packet::ACK(0)), TftpResult::Done(None));
}

#[test]
fn rrq_small_file_reply_with_data_illegal() {
    let (mut server, file, mut file_bytes) = rrq_fixture(132);
    let (xfer, res) = server.rx_initial(Packet::RRQ {
        filename: file,
        mode: "octet".into(),
    });
    assert_eq!(res, Ok(data_packet(1, file_bytes.gen(132))));
    let mut xfer = xfer.unwrap();
    assert_eq!(
        xfer.rx(data_packet(1, vec![])),
        TftpResult::Done(Some(error_packet(ErrorCode::IllegalTFTP, "")))
    );
    assert_eq!(xfer.rx(Packet::ACK(0)), TftpResult::Done(None));
}

#[test]
fn double_rrq() {
    let (mut server, file, mut file_bytes) = rrq_fixture(132);
    let (xfer, res) = server.rx_initial(Packet::RRQ {
        filename: file.clone(),
        mode: "octet".into(),
    });
    assert_eq!(res, Ok(data_packet(1, file_bytes.gen(132))));
    let mut xfer = xfer.unwrap();
    assert_eq!(
        xfer.rx(Packet::RRQ {
            filename: file,
            mode: "octet".into(),
        }),
        TftpResult::Error(TftpError::TransferAlreadyRunning)
    );
}

#[test]
fn rrq_2_blocks_ok() {
    let (mut server, file, mut file_bytes) = rrq_fixture(612);
    let (xfer, res) = server.rx_initial(Packet::RRQ {
        filename: file.clone(),
        mode: "octet".into(),
    });
    assert_eq!(res, Ok(data_packet(1, file_bytes.gen(512))));
    let mut xfer = xfer.unwrap();
    assert_eq!(
        xfer.rx(Packet::ACK(1)),
        TftpResult::Reply(data_packet(2, file_bytes.gen(100)))
    );
    assert_eq!(xfer.rx(Packet::ACK(2)), TftpResult::Done(None));
}

#[test]
fn rrq_2_blocks_second_lost_ack_repeat_ok() {
    let (mut server, file, mut file_bytes) = rrq_fixture(612);
    let (xfer, res) = server.rx_initial(Packet::RRQ {
        filename: file.clone(),
        mode: "octet".into(),
    });
    assert_eq!(res, Ok(data_packet(1, file_bytes.gen(512))));
    let mut xfer = xfer.unwrap();
    assert_eq!(
        xfer.rx(Packet::ACK(1)),
        TftpResult::Reply(data_packet(2, file_bytes.gen(100)))
    );
    // assuming the second data got lost, and the client re-acks the first data
    assert_eq!(xfer.rx(Packet::ACK(1)), TftpResult::Repeat);
    assert_eq!(xfer.rx(Packet::ACK(2)), TftpResult::Done(None));
}

#[test]
fn rrq_large_file_blocknum_wraparound() {
    let size_bytes = 512 * 70_000 + 85;
    let (mut server, file, mut file_bytes) = rrq_fixture(size_bytes);
    let (xfer, res) = server.rx_initial(Packet::RRQ {
        filename: file,
        mode: "octet".into(),
    });
    assert_eq!(res, Ok(data_packet(1, file_bytes.gen(512))));
    let mut xfer = xfer.unwrap();

    let mut block = 1u16;
    // loop for one less because we already got the first DATA above
    for _ in 0..(size_bytes / 512) - 1 {
        let new_block = block.wrapping_add(1);
        assert_eq!(
            xfer.rx(Packet::ACK(block)),
            TftpResult::Reply(data_packet(new_block, file_bytes.gen(512)))
        );
        block = new_block;
    }

    let new_block = block.wrapping_add(1);
    assert_eq!(
        xfer.rx(Packet::ACK(block)),
        TftpResult::Reply(data_packet(new_block, file_bytes.gen(85)))
    );
    assert_eq!(xfer.rx(Packet::ACK(new_block)), TftpResult::Done(None));
}

#[test]
fn rrq_small_file_wrq_already_running() {
    let (mut server, file, mut file_bytes) = rrq_fixture(132);
    let (xfer, res) = server.rx_initial(Packet::RRQ {
        filename: file.clone(),
        mode: "octet".into(),
    });
    assert_eq!(res, Ok(data_packet(1, file_bytes.gen(132))));
    let mut xfer = xfer.unwrap();
    assert_eq!(
        xfer.rx(Packet::WRQ {
            filename: file,
            mode: "octet".into(),
        }),
        TftpResult::Error(TftpError::TransferAlreadyRunning)
    );
}

#[test]
fn rrq_small_file_err_kills_transfer() {
    let (mut server, file, mut file_bytes) = rrq_fixture(612);
    let (xfer, res) = server.rx_initial(Packet::RRQ {
        filename: file.clone(),
        mode: "octet".into(),
    });
    assert_eq!(res, Ok(data_packet(1, file_bytes.gen(512))));
    let mut xfer = xfer.unwrap();
    assert_eq!(
        xfer.rx(error_packet(ErrorCode::DiskFull, "")),
        TftpResult::Done(None)
    );
    assert_eq!(xfer.rx(Packet::ACK(0)), TftpResult::Done(None));
}

#[test]
fn wrq_already_exists_error() {
    let mut iof = TestIoFactory::new();
    let file = "textfile".to_owned();
    iof.possible_files.insert(file.clone(), 132);
    iof.server_present_files.insert(file.clone());
    let mut server = TftpServerProto::new(iof, Default::default());
    let (xfer, res) = server.rx_initial(Packet::WRQ {
        filename: file,
        mode: "octet".into(),
    });
    assert_eq!(res, Ok(error_packet(ErrorCode::FileExists, "")));
    assert!(xfer.is_none());
}

fn wrq_fixture(file_size: usize) -> (TftpServerProto<TestIoFactory>, String, ByteGen) {
    let mut iof = TestIoFactory::new();
    let file = "textfile".to_owned();
    iof.possible_files.insert(file.clone(), file_size);
    let serv = TftpServerProto::new(iof, Default::default());
    let file_bytes = ByteGen::new(&file);
    (serv, file, file_bytes)
}

fn wrq_fixture_early_termination(
    file_size: usize,
) -> (TftpServerProto<TestIoFactory>, String, ByteGen) {
    let mut iof = TestIoFactory::new();
    let file = "textfile".to_owned();
    iof.possible_files.insert(file.clone(), file_size);
    iof.enforce_full_write = false;
    let serv = TftpServerProto::new(iof, Default::default());
    let file_bytes = ByteGen::new(&file);
    (serv, file, file_bytes)
}

#[test]
fn wrq_mail_gets_error() {
    let (mut server, file, _) = wrq_fixture(200);
    let (xfer, res) = server.rx_initial(Packet::WRQ {
        filename: file,
        mode: "mail".into(),
    });
    assert_eq!(res, Ok(error_packet(ErrorCode::NoUser, "")));
    assert!(xfer.is_none());
}

#[test]
fn wrq_small_file_ack_end() {
    let (mut server, file, mut file_bytes) = wrq_fixture(132);
    let (xfer, res) = server.rx_initial(Packet::WRQ {
        filename: file,
        mode: "octet".into(),
    });
    assert_eq!(res, Ok(Packet::ACK(0)));
    let mut xfer = xfer.unwrap();
    assert!(!xfer.is_done());
    assert_eq!(
        xfer.rx(data_packet(1, file_bytes.gen(132))),
        TftpResult::Done(Some(Packet::ACK(1)))
    );
    assert!(xfer.is_done());
}

#[test]
fn wrq_1_block_file() {
    let (mut server, file, mut file_bytes) = wrq_fixture(512);
    let (xfer, res) = server.rx_initial(Packet::WRQ {
        filename: file,
        mode: "octet".into(),
    });
    assert_eq!(res, Ok(Packet::ACK(0)));
    let mut xfer = xfer.unwrap();
    assert_eq!(
        xfer.rx(data_packet(1, file_bytes.gen(512))),
        TftpResult::Reply(Packet::ACK(1))
    );
    assert_eq!(
        xfer.rx(data_packet(2, vec![])),
        TftpResult::Done(Some(Packet::ACK(2)))
    );
    assert_eq!(xfer.rx(data_packet(2, vec![])), TftpResult::Done(None));
}

#[test]
fn wrq_small_file_reply_with_ack_illegal() {
    let (mut server, file, mut file_bytes) = wrq_fixture(512);
    let (xfer, res) = server.rx_initial(Packet::WRQ {
        filename: file,
        mode: "octet".to_owned(),
    });
    assert_eq!(res, Ok(Packet::ACK(0)));
    let mut xfer = xfer.unwrap();
    assert_eq!(
        xfer.rx(data_packet(1, file_bytes.gen(512))),
        TftpResult::Reply(Packet::ACK(1))
    );
    assert_eq!(
        xfer.rx(Packet::ACK(3)),
        TftpResult::Done(Some(error_packet(ErrorCode::IllegalTFTP, "")))
    );
    assert_eq!(xfer.rx(data_packet(2, vec![])), TftpResult::Done(None));
}

#[test]
fn wrq_small_file_block_id_not_1_err() {
    let (mut server, file, mut file_bytes) = wrq_fixture_early_termination(132);
    let (xfer, res) = server.rx_initial(Packet::WRQ {
        filename: file,
        mode: "octet".to_owned(),
    });
    assert_eq!(res, Ok(Packet::ACK(0)));
    let mut xfer = xfer.unwrap();
    assert_eq!(
        xfer.rx(data_packet(2, file_bytes.gen(132))),
        TftpResult::Done(Some(error_packet(ErrorCode::IllegalTFTP, "Data packet lost")))
    );
    assert_eq!(xfer.rx(data_packet(1, vec![])), TftpResult::Done(None));
}

#[test]
fn wrq_large_file_blocknum_wraparound() {
    let size_bytes = 512 * 70_000 + 85;
    let (mut server, file, mut file_bytes) = wrq_fixture(size_bytes);
    let (xfer, res) = server.rx_initial(Packet::WRQ {
        filename: file,
        mode: "octet".to_owned(),
    });
    assert_eq!(res, Ok(Packet::ACK(0)));
    let mut xfer = xfer.unwrap();

    let mut block_num = 1u16;
    for _ in 0..(size_bytes / 512) {
        assert_eq!(
            xfer.rx(data_packet(block_num, file_bytes.gen(512))),
            TftpResult::Reply(Packet::ACK(block_num))
        );
        block_num = block_num.wrapping_add(1);
    }
    assert_eq!(
        xfer.rx(data_packet(block_num, file_bytes.gen(85))),
        TftpResult::Done(Some(Packet::ACK(block_num)))
    );
}

#[test]
fn policy_readonly() {
    let mut iof = TestIoFactory::new();
    let amt = 100;
    let file_a = "file_a".to_owned();
    let file_b = "file_b".to_owned();
    iof.possible_files.insert(file_a.clone(), amt);
    iof.server_present_files.insert(file_a.clone());
    iof.possible_files.insert(file_b.clone(), amt);

    let proxy = IOPolicyProxy::new(
        iof,
        IOPolicyCfg {
            readonly: true,
            path: None,
        },
    );
    let mut v = vec![];
    assert_eq!(
        proxy
            .open_read(&file_a)
            .unwrap()
            .read_to_end(&mut v)
            .unwrap(),
        amt
    );
    assert_eq!(v.len(), amt);

    let mut proxy = proxy;
    if let Ok(_) = proxy.create_new(&file_b) {
        panic!("create should not succeed");
    }
}

#[test]
fn policy_remap_directory() {
    let mut iof = TestIoFactory::new();
    let amt = 100;
    let file_a = "the_new_path/file_a".to_owned();
    let file_b = "the_new_path/file_b".to_owned();
    iof.possible_files.insert(file_a.clone(), amt);
    iof.possible_files.insert(file_b.clone(), amt);
    iof.server_present_files.insert(file_a.clone());
    iof.enforce_full_write = false;

    let mut proxy = IOPolicyProxy::new(
        iof,
        IOPolicyCfg {
            readonly: false,
            path: Some("the_new_path".into()),
        },
    );
    assert!(proxy.open_read("the_new_path/file_a").is_err());
    assert!(proxy.open_read("file_a").is_ok());

    assert!(proxy.create_new("the_new_path/file_b").is_err());
    assert!(proxy.create_new("file_b").is_ok());
}

#[test]
fn readonly_server_refuses_writes() {
    let (_, file, _) = wrq_fixture(10);
    let cfg = IOPolicyCfg {
        readonly: true,
        path: None,
    };
    let decision = cfg.rx_initial(Packet::WRQ {
        filename: file,
        mode: "octet".into(),
    });
    assert_eq!(decision, Initial::Reply(error_packet(ErrorCode::FileExists, "")));
}

#[test]
fn requests_resolve_under_directory() {
    let cfg = IOPolicyCfg {
        readonly: false,
        path: Some("srv".into()),
    };
    assert_eq!(
        cfg.rx_initial(Packet::RRQ {
            filename: "a.txt".into(),
            mode: "octet".into(),
        }),
        Initial::Read("srv/a.txt".into())
    );
    assert_eq!(
        cfg.rx_initial(Packet::WRQ {
            filename: "b.txt".into(),
            mode: "OCTET".into(),
        }),
        Initial::Write("srv/b.txt".into())
    );
}

#[test]
fn paths_outside_directory_get_access_violation() {
    for name in ["../hello.txt", "/etc/profile", "~/.bashrc", "~", "a/../../b", "./.."] {
        let (mut server, _, _) = rrq_fixture(10);
        let (xfer, res) = server.rx_initial(Packet::RRQ {
            filename: name.to_string(),
            mode: "octet".into(),
        });
        assert_eq!(res, Ok(error_packet(ErrorCode::AccessViolation, "")));
        assert!(xfer.is_none());
        let (mut server, _, _) = wrq_fixture(10);
        let (xfer, res) = server.rx_initial(Packet::WRQ {
            filename: name.to_string(),
            mode: "octet".into(),
        });
        assert_eq!(res, Ok(error_packet(ErrorCode::AccessViolation, "")));
        assert!(xfer.is_none());
    }
}

#[test]
fn names_inside_directory_are_allowed() {
    let cfg = IOPolicyCfg::default();
    for name in ["a..b/..c/x..", "a/../b", "a/..", "~notes", "./x", "a//b/./../c"] {
        assert_eq!(
            cfg.rx_initial(Packet::RRQ {
                filename: name.into(),
                mode: "octet".into(),
            }),
            Initial::Read(name.into())
        );
    }
}

#[test]
fn open_outcomes() {
    let (transfer, reply) = read_opened(None);
    assert!(transfer.is_none());
    assert_eq!(reply, error_packet(ErrorCode::FileNotFound, ""));
    let (transfer, reply) = write_created(false);
    assert!(transfer.is_none());
    assert_eq!(reply, error_packet(ErrorCode::FileExists, ""));
    let (transfer, reply) = write_created(true);
    assert!(!transfer.unwrap().is_done());
    assert_eq!(reply, Packet::ACK(0));
    let (transfer, reply) = read_opened(Some((DataBytes([1; 512]), 3)));
    assert!(!transfer.unwrap().is_done());
    assert_eq!(
        reply,
        Packet::DATA {
            block_num: 1,
            data: DataBytes([1; 512]),
            len: 3,
        }
    );
}

#[test]
fn requests_after_done_answer_done() {
    let (mut server, file, mut file_bytes) = rrq_fixture(132);
    let (xfer, res) = server.rx_initial(Packet::RRQ {
        filename: file.clone(),
        mode: "octet".into(),
    });
    assert_eq!(res, Ok(data_packet(1, file_bytes.gen(132))));
    let mut xfer = xfer.unwrap();
    assert_eq!(xfer.rx(Packet::ACK(1)), TftpResult::Done(None));
    assert_eq!(
        xfer.rx(Packet::RRQ {
            filename: file.clone(),
            mode: "octet".into(),
        }),
        TftpResult::Done(None)
    );
    assert_eq!(
        xfer.rx(Packet::WRQ {
            filename: file,
            mode: "octet".into(),
        }),
        TftpResult::Done(None)
    );
    assert!(xfer.is_done());
}

#[test]
fn complete_transfer_answers_done() {
    let (mut transfer, first) = Transfer::start_write();
    assert_eq!(first, Packet::ACK(0));
    assert!(matches!(
        transfer.rx(data_packet(1, vec![1, 2, 3])),
        Step::Write {
            len: 3,
            result: TftpResult::Done(Some(Packet::ACK(1))),
            ..
        }
    ));
    assert!(transfer.is_done());
    assert_eq!(transfer.rx(data_packet(2, vec![])), Step::Result(TftpResult::Done(None)));
    assert_eq!(
        transfer.rx(error_packet(ErrorCode::NotDefined, "")),
        Step::Result(TftpResult::Done(None))
    );
    assert_eq!(
        transfer.rx(Packet::ACK(2)),
        Step::Result(TftpResult::Done(Some(error_packet(ErrorCode::IllegalTFTP, ""))))
    );
}

#[test]
fn send_transfer_steps() {
    let (mut transfer, first) = Transfer::start_read(DataBytes([5; 512]), 512);
    assert_eq!(
        first,
        Packet::DATA {
            block_num: 1,
            data: DataBytes([5; 512]),
            len: 512,
        }
    );
    assert_eq!(transfer.rx(Packet::ACK(0)), Step::Result(TftpResult::Repeat));
    assert_eq!(transfer.rx(Packet::ACK(1)), Step::ReadNext);
    assert_eq!(
        transfer.block_read(DataBytes([0; 512]), 0),
        TftpResult::Reply(Packet::DATA {
            block_num: 2,
            data: DataBytes([0; 512]),
            len: 0,
        })
    );
    assert!(!transfer.is_done());
    assert_eq!(transfer.rx(Packet::ACK(2)), Step::Result(TftpResult::Done(None)));
    assert!(transfer.is_done());
}

struct TestIoFactory {
    server_present_files: HashSet<String>,
    possible_files: HashMap<String, usize>,
    enforce_full_write: bool,
}
impl TestIoFactory {
    fn new() -> Self {
        TestIoFactory {
            server_present_files: HashSet::new(),
            possible_files: HashMap::new(),
            enforce_full_write: true,
        }
    }
}
impl IOAdapter for TestIoFactory {
    type R = GeneratingReader;
    type W = ExpectingWriter;
    fn open_read(&self, filename: &str) -> io::Result<Self::R> {
        if self.server_present_files.contains(filename) {
            let size = *self.possible_files.get(filename).unwrap();
            Ok(GeneratingReader::new(filename, size))
        } else if !self.possible_files.contains_key(filename) {
            Err(io::Error::new(
                io::ErrorKind::PermissionDenied,
                "unexpected file",
            ))
        } else {
            Err(io::Error::new(
                io::ErrorKind::NotFound,
                "test file not found",
            ))
        }
    }
    fn create_new(&mut self, filename: &str) -> io::Result<ExpectingWriter> {
        if self.server_present_files.contains(filename) {
            Err(io::Error::new(
                io::ErrorKind::AlreadyExists,
                "test file already there",
            ))
        } else if !self.possible_files.contains_key(filename) {
            Err(io::Error::new(
                io::ErrorKind::PermissionDenied,
                "unexpected file",
            ))
        } else {
            self.server_present_files.insert(filename.into());
            let size = *self.possible_files.get(filename).unwrap();
            Ok(ExpectingWriter::new(
                filename,
                size,
                self.enforce_full_write,
            ))
        }
    }
}

struct ByteGen {
    crt: u8,
    count: u8,
}
impl ByteGen {
    // pseudorandom, just so we get different values for each file
    fn new(s: &str) -> Self {
        let mut v = 0;
        for b in s.bytes() {
            v ^= b;
        }
        ByteGen { crt: v, count: 0 }
    }
    fn gen(&mut self, n: usize) -> Vec<u8> {
        self.take(n).collect()
    }
}
impl Iterator for ByteGen {
    type Item = u8;
    fn next(&mut self) -> Option<u8> {
        self.crt = self.crt.wrapping_add(1).wrapping_mul(self.count);
        self.count = self.count.wrapping_add(1);
        Some(self.crt)
    }
}

struct GeneratingReader {
    gen: Take<ByteGen>,
}
impl GeneratingReader {
    fn new(s: &str, amt: usize) -> Self {
        Self {
            gen: ByteGen::new(s).take(amt),
        }
    }
}
impl Read for GeneratingReader {
    fn read(&mut self, buf: &mut [u8]) -> io::Result<usize> {
        let mut read = 0;
        for e in buf {
            if let Some(v) = self.gen.next() {
                *e = v;
                read += 1;
            } else {
                break;
            }
        }
        Ok(read)
    }
}

struct ExpectingWriter {
    gen: Take<ByteGen>,
    enforce_full_write: bool,
}
impl ExpectingWriter {
    fn new(s: &str, amt: usize, enforce_full_write: bool) -> Self {
        Self {
            gen: ByteGen::new(s).take(amt),
            enforce_full_write,
        }
    }
}
impl Write for ExpectingWriter {
    fn write(&mut self, buf: &[u8]) -> io::Result<usize> {
        let mut wrote = 0;
        for b in buf {
            if let Some(v) = self.gen.next() {
                assert_eq!(*b, v);
                wrote += 1;
            } else {
                panic!("wrote more than expected");
            }
        }
        Ok(wrote)
    }
    fn flush(&mut self) -> io::Result<()> {
        Ok(())
    }
}
impl Drop for ExpectingWriter {
    fn drop(&mut self) {
        if self.enforce_full_write {
            let (_, sup) = self.gen.size_hint();
            assert_eq!(
                sup,
                Some(0),
                "writer destroyed before all bytes were written"
            );
        }
    }
}
