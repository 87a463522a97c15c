//! Driver core for the LCAM_V06 CCD line-sensor spectrometer.
//!
//! The sensor talks over a serial line. Commands are five bytes each
//! (`command`). Responses are short binary packets, large pixel frames
//! with a scan size and an additive checksum, and one response in plain
//! text, the version report (`response`, `version_details`). The parser
//! reads one response from the head of a byte slice and says whether it
//! is complete, needs more bytes or is none; `align_response` finds the
//! place at which a response can begin among bytes that are none
//! (`parser`, `version_parser`). A session pairs commands with responses
//! over a transport that the user supplies (`ccd`, `link`, `io_adapter`);
//! a codec does the same over buffers of the `bytes` crate (`codec`);
//! recordings are decoded as a whole (`hex_parser`), and frames are
//! written out as text (`output`).
//!
//! Every function is verified against a contract over mathematical
//! models: sequences of bytes for the wire, views for the data types.
//! `laws` holds what is proved of the wire format as a whole.

pub mod ccd;
pub mod codec;
pub mod command;
pub mod error;
pub mod flags;
pub mod hex_parser;
pub mod io_adapter;
pub mod laws;
pub mod link;
pub mod output;
pub mod parser;
pub mod prefix;
pub mod response;
pub mod stream;
pub mod version_details;
pub mod version_parser;

pub use ccd::CCD;
pub use command::{encode_command, Command};
pub use error::{Error, ResponseKind};
pub use flags::{BaudRate, TriggerMode};
pub use io_adapter::IoAdapter;
pub use parser::{align_response, parse_response, Parsed};
pub use response::{Frame, Response, FRAME_PIXEL_COUNT};
pub use version_details::VersionDetails;
