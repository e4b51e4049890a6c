//! The bytes that tell the kinds of frames apart: the opcodes of RFC 6455.
use vstd::prelude::*;

verus! {

pub const TEXT: u8 = 0x01;

pub const BINARY: u8 = 0x02;

pub const PING: u8 = 0x09;

pub const PONG: u8 = 0x0A;

pub const CLOSE: u8 = 0x08;

} // verus!
