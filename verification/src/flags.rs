//! Enumerations carried inside commands and responses.

use crate::error::Error;
use vstd::prelude::*;

verus! {

/// How the sensor decides when to start an exposure.
#[derive(PartialEq, Eq, Debug, Clone, Copy, Structural)]
pub enum TriggerMode {
    Soft,
    ContinuousHard,
    SingleHard,
}

impl TriggerMode {
    /// The byte that stands for this mode on the wire.
    pub open spec fn code_spec(self) -> u8 {
        match self {
            TriggerMode::Soft => 0x00,
            TriggerMode::ContinuousHard => 0x01,
            TriggerMode::SingleHard => 0x02,
        }
    }

    /// The byte that stands for this mode on the wire.
    pub fn to_code(self) -> (code: u8)
        ensures
            code == self.code_spec(),
    {
        match self {
            TriggerMode::Soft => 0x00,
            TriggerMode::ContinuousHard => 0x01,
            TriggerMode::SingleHard => 0x02,
        }
    }
}

/// Speed of the sensor's UART pins, in bits per second.
#[derive(PartialEq, Eq, Debug, Clone, Copy, Structural)]
pub enum BaudRate {
    Baud115200,
    Baud384000,
    Baud921600,
}

/// Whether `c` is the wire code of some baud rate.
pub open spec fn is_baud_code(c: u8) -> bool {
    1 <= c <= 3
}

/// The baud rate that wire code `c` stands for; meaningful where
/// `is_baud_code(c)`.
pub open spec fn baud_from_code(c: u8) -> BaudRate {
    if c == 1 {
        BaudRate::Baud115200
    } else if c == 2 {
        BaudRate::Baud384000
    } else {
        BaudRate::Baud921600
    }
}

impl BaudRate {
    /// The wire code of this rate.
    pub open spec fn code_spec(self) -> u8 {
        match self {
            BaudRate::Baud115200 => 0x01,
            BaudRate::Baud384000 => 0x02,
            BaudRate::Baud921600 => 0x03,
        }
    }

    /// The rate in bits per second.
    pub open spec fn value_spec(self) -> u32 {
        match self {
            BaudRate::Baud115200 => 115200,
            BaudRate::Baud384000 => 384000,
            BaudRate::Baud921600 => 921600,
        }
    }

    /// Decodes a wire code. Codes other than 1, 2 and 3 name no rate and
    /// give `InvalidBaudRate`.
    pub fn try_from_code(c: u8) -> (r: Result<BaudRate, Error>)
        ensures
            r is Ok <==> is_baud_code(c),
            r matches Ok(b) ==> b == baud_from_code(c) && b.code_spec() == c,
            r matches Err(e) ==> e is InvalidBaudRate,
    {
        match c {
            0x01 => Ok(BaudRate::Baud115200),
            0x02 => Ok(BaudRate::Baud384000),
            0x03 => Ok(BaudRate::Baud921600),
            _ => Err(Error::InvalidBaudRate),
        }
    }

    /// The wire code of this rate.
    pub fn to_code(self) -> (code: u8)
        ensures
            code == self.code_spec(),
            is_baud_code(code),
            baud_from_code(code) == self,
    {
        match self {
            BaudRate::Baud115200 => 0x01,
            BaudRate::Baud384000 => 0x02,
            BaudRate::Baud921600 => 0x03,
        }
    }

    /// The rate in bits per second.
    pub fn to_u32(self) -> (v: u32)
        ensures
            v == self.value_spec(),
    {
        match self {
            BaudRate::Baud115200 => 115200,
            BaudRate::Baud384000 => 384000,
            BaudRate::Baud921600 => 921600,
        }
    }

    /// The rate in bits per second, in decimal.
    pub open spec fn text_spec(self) -> Seq<char> {
        match self {
            BaudRate::Baud115200 => "115200"@,
            BaudRate::Baud384000 => "384000"@,
            BaudRate::Baud921600 => "921600"@,
        }
    }

    /// The rate in bits per second, in decimal, as it is shown to a user.
    pub fn to_text(self) -> (text: &'static str)
        ensures
            text@ == self.text_spec(),
    {
        match self {
            BaudRate::Baud115200 => "115200",
            BaudRate::Baud384000 => "384000",
            BaudRate::Baud921600 => "921600",
        }
    }

    /// The rate that runs at `v` bits per second, if the sensor has one.
    pub fn from_u32(v: u32) -> (r: Option<BaudRate>)
        ensures
            r is Some <==> (v == 115200 || v == 384000 || v == 921600),
            r matches Some(b) ==> b.value_spec() == v,
    {
        if v == 115200 {
            Some(BaudRate::Baud115200)
        } else if v == 384000 {
            Some(BaudRate::Baud384000)
        } else if v == 921600 {
            Some(BaudRate::Baud921600)
        } else {
            None
        }
    }
}

impl Default for BaudRate {
    /// The rate the sensor starts with.
    fn default() -> (r: BaudRate)
        ensures
            r == BaudRate::Baud115200,
    {
        BaudRate::Baud115200
    }
}

} // verus!
