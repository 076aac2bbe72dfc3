tftp_server
===========

A TFTP (RFC 1350) server whose protocol logic is verified with Verus.

Layout
------

- `src/packet.rs`: the packet format. `Packet::bytes` and `Packet::read`
  are specified against the byte image of each packet, and
  `lemma_read_after_bytes` proves that reading the bytes of a packet gives
  the packet back.
- `src/data.rs`: a packet format of fixed 1024-byte buffers without a
  length, with 16 bit fields least significant byte first; it is written,
  not read.
- `src/tftp_proto.rs`: one transfer as a state machine. Each received
  packet gives the next state and a `Step`: a result to send, a block of the
  file to read next, or a block to write. `IOPolicyCfg` decides how read and
  write requests are answered (modes, names that leave the served
  directory, read-only servers), and `read_opened` / `write_created` answer
  them once the file was opened or created.
- `src/server.rs`: decisions of the server loop (new connection tokens,
  what a connection sends after a packet, the answer to a stranger).
- `app/`: the command line server: sockets, the event loop, the timer and
  file access, built on the library.

Running
-------

`tftp_server -a 127.0.0.1:61204 -d ./files` serves `./files` on the given
address; `-r` rejects write requests.
