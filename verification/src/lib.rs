//! A user-space TCP/IP network stack core, verified with Verus.
//!
//! The crate contains the protocol logic only: packet buffers, checksums,
//! sequence-number arithmetic, IPv4/IPv6 framing, ICMP echo, UDP, the TCP
//! engine, and a timer list.  All side effects are explicit: incoming frames
//! are handed in as values, outgoing frames are collected in a queue, and the
//! clock is a parameter.  An unverified shell owns the tunnel device and the
//! threads and drives this library as a state machine.

pub mod buf;
pub mod icmp;
pub mod ip;
pub mod packet;
pub mod rng;
pub mod stack;
pub mod tcp;
pub mod timer;
pub mod udp;
pub mod util;
