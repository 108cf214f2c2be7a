//! Error values shared by the codec and the protocol layers.

use vstd::prelude::*;
use vstd::string::StringExecFns;

verus! {

/// The broad class of a failure.
#[derive(Debug, Clone, Copy, PartialEq, Eq, Structural)]
pub enum IoErrorKind {
    /// The source ended before the requested value was complete.
    UnexpectedEof,
    /// The bytes were read but do not form a valid value.
    InvalidData,
    /// A value that needs a byte boundary, or a nibble that needs the start
    /// or the middle of a byte, met the codec standing elsewhere: a defect
    /// of the protocol's description or of the caller, not of the stream.
    Misaligned,
    /// Any other failure; the description says which.
    Other,
}

/// A recoverable failure of a codec or framing operation.
#[derive(Debug, Clone)]
pub struct IoError {
    pub kind: IoErrorKind,
    pub description: String,
}

/// What a codec operation returns.
pub type IoResult<T> = Result<T, IoError>;

/// What a codec operation returns that gives no value.
pub type VioResult = IoResult<()>;

/// An error of kind [`IoErrorKind::Other`] carrying `desc`.
pub fn make_io_error(desc: &str) -> (e: IoError)
    ensures
        e.kind == IoErrorKind::Other,
        e.description@ == desc@,
{
    IoError { kind: IoErrorKind::Other, description: String::from_str(desc) }
}

/// An error of kind [`IoErrorKind::Misaligned`] carrying `desc`.
pub fn misaligned(desc: &str) -> (e: IoError)
    ensures
        e.kind == IoErrorKind::Misaligned,
        e.description@ == desc@,
{
    IoError { kind: IoErrorKind::Misaligned, description: String::from_str(desc) }
}

/// `Err` of [`make_io_error`].
pub fn io_error<T>(desc: &str) -> (r: Result<T, IoError>)
    ensures
        r matches Err(e) && e.kind == IoErrorKind::Other && e.description@ == desc@,
{
    Err(make_io_error(desc))
}

/// [`io_error`] for an owned description.
pub fn io_error_f<T>(desc: String) -> (r: Result<T, IoError>)
    ensures
        r matches Err(e) && e.kind == IoErrorKind::Other && e.description@ == desc@,
{
    Err(make_io_error(desc.as_str()))
}

/// The digit that stands for `value`, which is below ten.
pub open spec fn digit_text(value: nat) -> Seq<char> {
    if value == 0 {
        "0"@
    } else if value == 1 {
        "1"@
    } else if value == 2 {
        "2"@
    } else if value == 3 {
        "3"@
    } else if value == 4 {
        "4"@
    } else if value == 5 {
        "5"@
    } else if value == 6 {
        "6"@
    } else if value == 7 {
        "7"@
    } else if value == 8 {
        "8"@
    } else {
        "9"@
    }
}

/// `value` in decimal digits, without leading zeros.
pub open spec fn decimal_text(value: nat) -> Seq<char>
    decreases value,
{
    if value < 10 {
        digit_text(value)
    } else {
        decimal_text(value / 10) + digit_text(value % 10)
    }
}

/// The digit that stands for `value`.
fn digit(value: u64) -> (r: &'static str)
    requires
        value < 10,
    ensures
        r@ == digit_text(value as nat),
{
    if value == 0 {
        "0"
    } else if value == 1 {
        "1"
    } else if value == 2 {
        "2"
    } else if value == 3 {
        "3"
    } else if value == 4 {
        "4"
    } else if value == 5 {
        "5"
    } else if value == 6 {
        "6"
    } else if value == 7 {
        "7"
    } else if value == 8 {
        "8"
    } else {
        "9"
    }
}

/// `value` in decimal digits.
pub fn decimal(value: u64) -> (r: String)
    ensures
        r@ == decimal_text(value as nat),
    decreases value,
{
    if value < 10 {
        String::from_str(digit(value))
    } else {
        decimal(value / 10).concat(digit(value % 10))
    }
}

} // verus!
