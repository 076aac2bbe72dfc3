//! A TFTP (RFC 1350) server library: the packet wire format, the protocol
//! state machine of one transfer, and the decisions of the server loop.
pub mod data;
pub mod packet;
pub mod server;
pub mod tftp_proto;
