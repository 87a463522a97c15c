//! The four short strings of a version report, each held in a string of
//! fixed capacity.

use crate::error::Error;
use arraystring::typenum::U23;
use arraystring::ArrayString;
use vstd::prelude::*;
use vstd::string::*;
use vstd::utf8::*;

verus! {

/// The most bytes of UTF-8 that one field of a version report may take.
pub const VERSION_FIELD_CAPACITY: usize = 23;

/// A string of at most `VERSION_FIELD_CAPACITY` bytes, stored inline in an
/// `arraystring::ArrayString`. Verus sees nothing inside it; what it
/// holds is named by `short_text_chars`.
#[derive(PartialEq, Eq, Debug)]
#[verifier::external_body]
pub struct ShortText {
    inner: ArrayString<U23>,
}

/// The characters that a `ShortText` holds.
pub uninterp spec fn short_text_chars(t: ShortText) -> Seq<char>;

impl Clone for ShortText {
    /// `ArrayString` is `Copy`: the clone is the same bytes again.
    #[verifier::external_body]
    fn clone(&self) -> (r: Self)
        ensures
            r == *self,
    {
        ShortText { inner: self.inner }
    }
}

impl Copy for ShortText {}

/// `ArrayString::try_from_str`: succeeds exactly when the UTF-8 length of
/// `s` is at most the capacity, and the string made then holds the
/// characters of `s`.
#[verifier::external_body]
fn short_text_from_str(s: &str) -> (r: Option<ShortText>)
    ensures
        r is Some <==> s.spec_bytes().len() <= VERSION_FIELD_CAPACITY,
        r matches Some(t) ==> short_text_chars(t) == s@,
{
    match ArrayString::try_from_str(s) {
        Ok(inner) => Some(ShortText { inner }),
        Err(_) => None,
    }
}

/// `ArrayString::as_str`: the whole content as a string slice.
#[verifier::external_body]
fn short_text_as_str(t: &ShortText) -> (r: &str)
    ensures
        r@ == short_text_chars(*t),
{
    t.inner.as_str()
}

impl View for ShortText {
    type V = Seq<char>;

    open spec fn view(&self) -> Seq<char> {
        short_text_chars(*self)
    }
}

impl ShortText {
    /// Stores `s`, or gives `None` where its UTF-8 form is longer than
    /// `VERSION_FIELD_CAPACITY` bytes.
    pub fn try_from_str(s: &str) -> (r: Option<ShortText>)
        ensures
            r is Some <==> encode_utf8(s@).len() <= VERSION_FIELD_CAPACITY,
            r matches Some(t) ==> t@ == s@,
    {
        short_text_from_str(s)
    }

    /// The stored text.
    pub fn as_str(&self) -> (r: &str)
        ensures
            r@ == self@,
    {
        short_text_as_str(self)
    }
}

/// What a version report says, as plain sequences of characters.
pub struct VersionDetailsView {
    pub hardware_version: Seq<char>,
    pub sensor_type: Seq<char>,
    pub firmware_version: Seq<char>,
    pub serial_number: Seq<char>,
}

/// Identification that the sensor reports about itself.
#[derive(PartialEq, Eq, Debug, Clone, Copy)]
pub struct VersionDetails {
    hardware_version: ShortText,
    sensor_type: ShortText,
    firmware_version: ShortText,
    serial_number: ShortText,
}

impl View for VersionDetails {
    type V = VersionDetailsView;

    closed spec fn view(&self) -> VersionDetailsView {
        VersionDetailsView {
            hardware_version: self.hardware_version@,
            sensor_type: self.sensor_type@,
            firmware_version: self.firmware_version@,
            serial_number: self.serial_number@,
        }
    }
}

/// Whether a field with these characters fits its bounded string.
pub open spec fn fits_version_field(chars: Seq<char>) -> bool {
    encode_utf8(chars).len() <= VERSION_FIELD_CAPACITY
}

impl VersionDetails {
    /// Builds the record from its four fields. The first field, in the
    /// order of the arguments, that does not fit gives
    /// `VersionDetailTooLong` with that field's name.
    pub fn try_new(hw_ver: &str, sensor: &str, fw_ver: &str, serial: &str) -> (r: Result<
        VersionDetails,
        Error,
    >)
        ensures
            r is Ok <==> fits_version_field(hw_ver@) && fits_version_field(sensor@)
                && fits_version_field(fw_ver@) && fits_version_field(serial@),
            r matches Ok(d) ==> d@ == (VersionDetailsView {
                hardware_version: hw_ver@,
                sensor_type: sensor@,
                firmware_version: fw_ver@,
                serial_number: serial@,
            }),
            r matches Err(e) ==> e is VersionDetailTooLong,
            r matches Err(Error::VersionDetailTooLong(name)) ==> {
                if !fits_version_field(hw_ver@) {
                    name@ == "Hardware version"@
                } else if !fits_version_field(sensor@) {
                    name@ == "Sensor type"@
                } else if !fits_version_field(fw_ver@) {
                    name@ == "Firmware version"@
                } else {
                    name@ == "Serial number"@
                }
            },
    {
        let hardware_version = match ShortText::try_from_str(hw_ver) {
            Some(t) => t,
            None => {
                return Err(Error::VersionDetailTooLong("Hardware version"));
            },
        };
        let sensor_type = match ShortText::try_from_str(sensor) {
            Some(t) => t,
            None => {
                return Err(Error::VersionDetailTooLong("Sensor type"));
            },
        };
        let firmware_version = match ShortText::try_from_str(fw_ver) {
            Some(t) => t,
            None => {
                return Err(Error::VersionDetailTooLong("Firmware version"));
            },
        };
        let serial_number = match ShortText::try_from_str(serial) {
            Some(t) => t,
            None => {
                return Err(Error::VersionDetailTooLong("Serial number"));
            },
        };
        Ok(VersionDetails { hardware_version, sensor_type, firmware_version, serial_number })
    }

    /// Builds the record from four fields that are bounded already.
    pub fn from_fields(
        hardware_version: ShortText,
        sensor_type: ShortText,
        firmware_version: ShortText,
        serial_number: ShortText,
    ) -> (d: VersionDetails)
        ensures
            d@ == (VersionDetailsView {
                hardware_version: hardware_version@,
                sensor_type: sensor_type@,
                firmware_version: firmware_version@,
                serial_number: serial_number@,
            }),
    {
        VersionDetails { hardware_version, sensor_type, firmware_version, serial_number }
    }

    /// The record as it is shown to a user: one line for each field, the
    /// name of the field in front of it.
    pub open spec fn text_spec(view: VersionDetailsView) -> Seq<char> {
        "Hardware version: "@ + view.hardware_version + "\nFirmware version: "@
            + view.firmware_version + "\nSensor type: "@ + view.sensor_type
            + "\nSerial number: "@ + view.serial_number
    }

    /// The record as it is shown to a user: one line for each field, the
    /// name of the field in front of it.
    pub fn to_text(&self) -> (text: String)
        ensures
            text@ == Self::text_spec(self@),
    {
        let mut text = String::new();
        text.append("Hardware version: ");
        text.append(self.hardware_version());
        text.append("\nFirmware version: ");
        text.append(self.firmware_version());
        text.append("\nSensor type: ");
        text.append(self.sensor_type());
        text.append("\nSerial number: ");
        text.append(self.serial_number());
        assert(text@ =~= Self::text_spec(self@));
        text
    }

    pub fn hardware_version(&self) -> (r: &str)
        ensures
            r@ == self@.hardware_version,
    {
        self.hardware_version.as_str()
    }

    pub fn sensor_type(&self) -> (r: &str)
        ensures
            r@ == self@.sensor_type,
    {
        self.sensor_type.as_str()
    }

    pub fn firmware_version(&self) -> (r: &str)
        ensures
            r@ == self@.firmware_version,
    {
        self.firmware_version.as_str()
    }

    pub fn serial_number(&self) -> (r: &str)
        ensures
            r@ == self@.serial_number,
    {
        self.serial_number.as_str()
    }
}

} // verus!
