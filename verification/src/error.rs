//! Everything that can go wrong while building, parsing or editing a document.

use vstd::prelude::*;
use std::str::Utf8Error;

verus! {

/// `std::str::Utf8Error`, carried through as an opaque value.
#[verifier::external_type_specification]
#[verifier::external_body]
pub struct ExUtf8Error(std::str::Utf8Error);

#[derive(Debug)]
#[allow(inconsistent_fields)]
pub enum Error {
    /// The buffer is too short to hold the signature.
    HeaderLenMisMatch { actual: usize },
    /// The first eight bytes are not the signature.
    HeaderMisMatch { bytes: Vec<u8> },
    /// A type code was built from a number of bytes other than four.
    ChunkTypeLenMismatch { bytes: Vec<u8> },
    /// A type code holds a non-letter and is not even text.
    ChunkTypeNotUtf8 { bytes: [u8; 4], err: Utf8Error },
    /// The buffer ends inside a record's type field.
    ChunkTypeReadError,
    /// The buffer ends inside a record's payload.
    ChunkDataReadError,
    /// The buffer ends inside a record's checksum field.
    ChunkCrcReadError,
    /// The buffer ends inside a record's length field.
    ChunkSizeReadError,
    /// A type code holds something other than an ASCII letter.
    ChunkTypeNotAplhaBetic { string: String },
    /// A payload was asked for as text and is not UTF-8.
    ChunkDataNotUtf8 { bytes: Vec<u8>, err: Utf8Error },
    /// The stored checksum (`expect`) differs from the computed one (`actual`).
    ChunkCrcMismatch { expect: u32, actual: u32 },
    /// No chunk of the document has the requested type.
    ChunkNotFound { chunk_type: [u8; 4] },
}

/// The mathematical content of an [`Error`]: the same cases over sequences,
/// without the opaque decoder diagnostics.
#[allow(inconsistent_fields)]
pub ghost enum Failure {
    HeaderLenMisMatch { actual: nat },
    HeaderMisMatch { bytes: Seq<u8> },
    ChunkTypeLenMismatch { bytes: Seq<u8> },
    ChunkTypeNotUtf8 { bytes: Seq<u8> },
    ChunkTypeReadError,
    ChunkDataReadError,
    ChunkCrcReadError,
    ChunkSizeReadError,
    ChunkTypeNotAplhaBetic { string: Seq<char> },
    ChunkDataNotUtf8 { bytes: Seq<u8> },
    ChunkCrcMismatch { expect: u32, actual: u32 },
    ChunkNotFound { chunk_type: Seq<u8> },
}

impl View for Error {
    type V = Failure;

    open spec fn view(&self) -> Failure {
        match *self {
            Error::HeaderLenMisMatch { actual } => Failure::HeaderLenMisMatch { actual: actual as nat },
            Error::HeaderMisMatch { bytes } => Failure::HeaderMisMatch { bytes: bytes@ },
            Error::ChunkTypeLenMismatch { bytes } => Failure::ChunkTypeLenMismatch { bytes: bytes@ },
            Error::ChunkTypeNotUtf8 { bytes, err } => Failure::ChunkTypeNotUtf8 { bytes: bytes@ },
            Error::ChunkTypeReadError => Failure::ChunkTypeReadError,
            Error::ChunkDataReadError => Failure::ChunkDataReadError,
            Error::ChunkCrcReadError => Failure::ChunkCrcReadError,
            Error::ChunkSizeReadError => Failure::ChunkSizeReadError,
            Error::ChunkTypeNotAplhaBetic { string } => Failure::ChunkTypeNotAplhaBetic { string: string@ },
            Error::ChunkDataNotUtf8 { bytes, err } => Failure::ChunkDataNotUtf8 { bytes: bytes@ },
            Error::ChunkCrcMismatch { expect, actual } => Failure::ChunkCrcMismatch { expect, actual },
            Error::ChunkNotFound { chunk_type } => Failure::ChunkNotFound { chunk_type: chunk_type@ },
        }
    }
}

impl Error {
    /// The debug rendering of the error, as one line of text. For an error
    /// without decoder diagnostics the text is the rendering of its content.
    pub fn to_string(&self) -> (res: String)
        ensures
            !carries_diagnostics(self@) ==> res@ == failure_debug(self@),
    {
        debug_text(self)
    }
}

/// The failure comes with the decoder's diagnostics, which its mathematical
/// content leaves out.
pub open spec fn carries_diagnostics(f: Failure) -> bool {
    f is ChunkTypeNotUtf8 || f is ChunkDataNotUtf8
}

/// The `{:?}` rendering of an error with the given content, as the derived
/// `Debug` of [`Error`] writes it.
pub uninterp spec fn failure_debug(f: Failure) -> Seq<char>;

/// Calls `format!` with the `{:?}` rendering of the error. Trusted: for an
/// error that holds no decoder diagnostics the text depends on the variant
/// and the values of its fields alone. Of the two variants that hold a
/// `Utf8Error` nothing is claimed.
#[verifier::external_body]
fn debug_text(e: &Error) -> (res: String)
    ensures
        !carries_diagnostics(e@) ==> res@ == failure_debug(e@),
{
    format!("{:?}", e)
}

/// Decodes bytes with `std::str::from_utf8`: it succeeds exactly on valid
/// UTF-8 and then yields the decoded characters.
#[verifier::external_body]
pub(crate) fn decode_text<'a>(bytes: &'a [u8]) -> (res: Result<&'a str, Utf8Error>)
    ensures
        res is Ok <==> vstd::utf8::valid_utf8(bytes@),
        res matches Ok(s) ==> s@ == vstd::utf8::decode_utf8(bytes@),
{
    std::str::from_utf8(bytes)
}

} // verus!
