//! Client-side core of a remote command protocol: a binary frame codec,
//! the encoding of a command invocation, the demultiplexer that turns a
//! frame stream into command output and an exit code, and the models of
//! the two duplex transports (paired HTTP exchanges, full-duplex socket).

pub mod auth;
pub mod bytes;
pub mod codec;
pub mod command;
pub mod demux;
pub mod jobs;
pub mod mutf8;
pub mod outbuf;
pub mod session;
pub mod socket;
