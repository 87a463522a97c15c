//! Commands and their fixed five-byte wire form.

use crate::flags::{BaudRate, TriggerMode};
use vstd::prelude::*;

verus! {

/// First byte of every command and of every binary response.
pub const PACKET_PREFIX: u8 = 0x81;

/// Last byte of every command and of every short response.
pub const PACKET_TERMINATOR: u8 = 0xFF;

/// Length of an encoded command, and of the head of a binary response.
pub const PACKET_HEADER_SIZE: usize = 5;

/// Package that can be sent to the sensor.
#[derive(PartialEq, Eq, Debug, Clone, Copy, Structural)]
pub enum Command {
    SingleRead,
    ContinuousRead,
    PauseRead,
    SetIntegrationTime(u16),
    SetTriggerMode(TriggerMode),
    GetExposureTime,
    GetVersion,
    SetAverageTime(u8),
    GetAverageTime,
    SetSerialBaudRate(BaudRate),
    GetSerialBaudRate,
}

/// High byte of `v` in big-endian order.
pub open spec fn high_byte(v: u16) -> u8 {
    (v / 256) as u8
}

/// Low byte of `v` in big-endian order.
pub open spec fn low_byte(v: u16) -> u8 {
    (v % 256) as u8
}

/// The 16-bit value whose big-endian bytes are `hi`, `lo`.
pub open spec fn be16(hi: u8, lo: u8) -> u16 {
    (hi * 256 + lo) as u16
}

impl Command {
    /// The opcode of this command.
    pub open spec fn code_spec(self) -> u8 {
        match self {
            Command::SingleRead => 0x01,
            Command::ContinuousRead => 0x02,
            Command::SetIntegrationTime(_) => 0x03,
            Command::PauseRead => 0x06,
            Command::SetTriggerMode(_) => 0x07,
            Command::GetVersion => 0x09,
            Command::GetExposureTime => 0x0a,
            Command::SetAverageTime(_) => 0x0c,
            Command::GetAverageTime => 0x0e,
            Command::SetSerialBaudRate(_) => 0x13,
            Command::GetSerialBaudRate => 0x16,
        }
    }

    /// The two data bytes of this command: its parameter, big-endian and
    /// padded with zero, or two zeros where it has none.
    pub open spec fn data_spec(self) -> (u8, u8) {
        match self {
            Command::SetIntegrationTime(t) => (high_byte(t), low_byte(t)),
            Command::SetTriggerMode(m) => (m.code_spec(), 0x00),
            Command::SetAverageTime(t) => (t, 0x00),
            Command::SetSerialBaudRate(r) => (r.code_spec(), 0x00),
            _ => (0x00, 0x00),
        }
    }

    /// The wire form: prefix, opcode, two data bytes, terminator.
    pub open spec fn encode_spec(self) -> Seq<u8> {
        seq![
            PACKET_PREFIX,
            self.code_spec(),
            self.data_spec().0,
            self.data_spec().1,
            PACKET_TERMINATOR,
        ]
    }

    /// Convert command enum into byte code for encoding.
    pub fn code(&self) -> (c: u8)
        ensures
            c == self.code_spec(),
    {
        match self {
            Command::SingleRead => 0x01,
            Command::ContinuousRead => 0x02,
            Command::SetIntegrationTime(_) => 0x03,
            Command::PauseRead => 0x06,
            Command::SetTriggerMode(_) => 0x07,
            Command::GetVersion => 0x09,
            Command::GetExposureTime => 0x0a,
            Command::SetAverageTime(_) => 0x0c,
            Command::GetAverageTime => 0x0e,
            Command::SetSerialBaudRate(_) => 0x13,
            Command::GetSerialBaudRate => 0x16,
        }
    }

    /// Serializes the command into its five bytes.
    pub fn encode(&self) -> (bytes: [u8; 5])
        ensures
            bytes@ == self.encode_spec(),
            bytes@.len() == PACKET_HEADER_SIZE,
            bytes@[0] == PACKET_PREFIX,
            bytes@[1] == self.code_spec(),
            bytes@[4] == PACKET_TERMINATOR,
    {
        let (data1, data2): (u8, u8) = match self {
            Command::SetIntegrationTime(t) => ((*t / 256) as u8, (*t % 256) as u8),
            Command::SetTriggerMode(m) => (m.to_code(), 0x00),
            Command::SetAverageTime(t) => (*t, 0x00),
            Command::SetSerialBaudRate(r) => (r.to_code(), 0x00),
            _ => (0x00, 0x00),
        };
        let bytes: [u8; 5] = [PACKET_PREFIX, self.code(), data1, data2, PACKET_TERMINATOR];
        assert(bytes@ =~= self.encode_spec());
        bytes
    }
}

/// Serializes `cmd` into its five bytes.
pub fn encode_command(cmd: &Command) -> (bytes: [u8; 5])
    ensures
        bytes@ == cmd.encode_spec(),
{
    cmd.encode()
}

} // verus!
