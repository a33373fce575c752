//! The library's error type.

use vstd::prelude::*;

verus! {

/// `std::io::Error`, carried through unopened.
#[verifier::external_type_specification]
#[verifier::external_body]
pub struct ExIoError(std::io::Error);

/// All errors that the library may produce.
#[derive(Debug)]
#[non_exhaustive]
pub enum Error {
    /// An I/O error (config files, history, lock, cache, etc.).
    Io(std::io::Error),
    /// A UTF-8 / string encoding error.
    Utf8(std::str::Utf8Error),
    /// A value was out of the expected range or otherwise invalid.
    InvalidValue(String),
    /// An operation is not supported in the current build configuration.
    NotSupported(String),
}

impl Error {
    /// The text that describes the error: its kind, then its detail.
    pub fn to_string(&self) -> (r: String)
        ensures
            (self matches Error::Io(_) ==> io_error_prefix().is_prefix_of(r@)),
            (self matches Error::Utf8(_) ==> utf8_error_prefix().is_prefix_of(r@)),
            (self matches Error::InvalidValue(m) ==> r@ == invalid_value_prefix() + m@),
            (self matches Error::NotSupported(m) ==> r@ == not_supported_prefix() + m@),
    {
        match self {
            Error::Io(e) => {
                let mut s = crate::text::chars_of("I/O error: ");
                proof {
                    reveal_strlit("I/O error: ");
                }
                let d = io_error_text(e);
                let mut t = crate::text::chars_of(d.as_str());
                s.append(&mut t);
                let r = crate::text::string_of(s.as_slice());
                assert(r@.subrange(0, io_error_prefix().len() as int) =~= io_error_prefix());
                r
            },
            Error::Utf8(e) => {
                let mut s = crate::text::chars_of("UTF-8 error: ");
                proof {
                    reveal_strlit("UTF-8 error: ");
                }
                let d = utf8_error_text(e);
                let mut t = crate::text::chars_of(d.as_str());
                s.append(&mut t);
                let r = crate::text::string_of(s.as_slice());
                assert(r@.subrange(0, utf8_error_prefix().len() as int) =~= utf8_error_prefix());
                r
            },
            Error::InvalidValue(m) => {
                let mut s = crate::text::chars_of("Invalid value: ");
                proof {
                    reveal_strlit("Invalid value: ");
                }
                let mut t = crate::text::chars_of(m.as_str());
                s.append(&mut t);
                crate::text::string_of(s.as_slice())
            },
            Error::NotSupported(m) => {
                let mut s = crate::text::chars_of("Not supported: ");
                proof {
                    reveal_strlit("Not supported: ");
                }
                let mut t = crate::text::chars_of(m.as_str());
                s.append(&mut t);
                crate::text::string_of(s.as_slice())
            },
        }
    }
}

pub open spec fn io_error_prefix() -> Seq<char> {
    seq!['I', '/', 'O', ' ', 'e', 'r', 'r', 'o', 'r', ':', ' ']
}

pub open spec fn utf8_error_prefix() -> Seq<char> {
    seq!['U', 'T', 'F', '-', '8', ' ', 'e', 'r', 'r', 'o', 'r', ':', ' ']
}

pub open spec fn invalid_value_prefix() -> Seq<char> {
    seq!['I', 'n', 'v', 'a', 'l', 'i', 'd', ' ', 'v', 'a', 'l', 'u', 'e', ':', ' ']
}

pub open spec fn not_supported_prefix() -> Seq<char> {
    seq!['N', 'o', 't', ' ', 's', 'u', 'p', 'p', 'o', 'r', 't', 'e', 'd', ':', ' ']
}

/// The `Display` text of an I/O error (`format!("{e}")`). It comes from the
/// operating system's messages, so nothing is stated of it.
#[verifier::external_body]
fn io_error_text(e: &std::io::Error) -> String {
    format!("{e}")
}

/// The `Display` text of `std::str::Utf8Error` (`format!("{e}")`). The error
/// is opaque here, so nothing is stated of the text.
#[verifier::external_body]
fn utf8_error_text(e: &std::str::Utf8Error) -> String {
    format!("{e}")
}

} // verus!
