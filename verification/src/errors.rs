//! The failure taxonomy of the assembly pipeline.
//!
//! Every component fails fast: the first error encountered aborts the whole
//! call and no partial output is ever returned.

use vstd::prelude::*;
use vstd::string::StringExecFns;
use crate::textbytes::{append_decimal, spec_decimal_chars};

verus! {

/// Prefixes a diagnostic with the offending position, so a failure names
/// which input caused it.
pub(crate) fn tag_index(label: &str, i: usize, msg: String) -> (r: String)
    ensures
        r@ == label@ + spec_decimal_chars(i as nat) + ": "@ + msg@,
{
    let mut s = String::from_str(label);
    append_decimal(&mut s, i as u64);
    s.append(": ");
    let r = s.concat(msg.as_str());
    proof {
        assert(r@ =~= label@ + spec_decimal_chars(i as nat) + ": "@ + msg@);
    }
    r
}

/// Everything that can go wrong while assembling documents.
#[derive(Debug, Clone, PartialEq, Eq)]
pub enum MergeError {
    /// The merge was called with an empty source list.
    EmptyInput,
    /// A source declared a MIME type that is neither an image nor a PDF.
    /// Carries the offending MIME string.
    UnsupportedMimeType(String),
    /// A blob declared as a PDF failed to parse. Carries the parser's
    /// diagnostic.
    InvalidPdf(String),
    /// The base document of an assembly request is not a parseable PDF.
    InvalidBasePdf,
    /// An image blob exceeded the size ceiling before decoding was attempted.
    /// Carries the offending byte length.
    SizeLimit(usize),
    /// An image blob could not be decoded. Carries the decoder's diagnostic.
    Decode(String),
    /// A decoded image could not be re-encoded for embedding. Carries the
    /// encoder's diagnostic.
    Encode(String),
    /// Writing the assembled document out failed. Carries the writer's
    /// diagnostic.
    Save(String),
    /// A stored-document identifier could not be resolved.
    DocumentNotFound(i64),
    /// The remote merge service answered 401.
    Authentication,
    /// The remote merge service answered 403.
    Authorization,
    /// The remote merge service answered 413.
    PayloadTooLarge,
    /// The remote merge service answered another non-success status.
    /// Carries the status and the response body.
    RemoteService(u16, Vec<u8>),
    /// The remote merge endpoint could not be reached. Carries the
    /// transport's diagnostic.
    Network(String),
}

impl MergeError {
    /// A short stable label for each failure kind, usable where a display
    /// string is needed.
    pub fn kind_label(&self) -> (r: &'static str)
        ensures
            r@ == self.spec_kind_label(),
    {
        match self {
            MergeError::EmptyInput => "no sources provided for merging",
            MergeError::UnsupportedMimeType(_) => "unsupported MIME type",
            MergeError::InvalidPdf(_) => "failed to parse PDF document",
            MergeError::InvalidBasePdf => "base document is not a valid PDF",
            MergeError::SizeLimit(_) => "image exceeds the size ceiling",
            MergeError::Decode(_) => "failed to decode image",
            MergeError::Encode(_) => "failed to encode image",
            MergeError::Save(_) => "failed to write the assembled PDF",
            MergeError::DocumentNotFound(_) => "stored document not found",
            MergeError::Authentication => "remote merge service rejected the credentials",
            MergeError::Authorization => "remote merge service refused access",
            MergeError::PayloadTooLarge => "remote merge service refused the payload size",
            MergeError::RemoteService(_, _) => "remote merge service reported an error",
            MergeError::Network(_) => "remote merge service could not be reached",
        }
    }

    /// What `kind_label` returns for each variant.
    pub open spec fn spec_kind_label(&self) -> Seq<char> {
        match self {
            MergeError::EmptyInput => "no sources provided for merging"@,
            MergeError::UnsupportedMimeType(_) => "unsupported MIME type"@,
            MergeError::InvalidPdf(_) => "failed to parse PDF document"@,
            MergeError::InvalidBasePdf => "base document is not a valid PDF"@,
            MergeError::SizeLimit(_) => "image exceeds the size ceiling"@,
            MergeError::Decode(_) => "failed to decode image"@,
            MergeError::Encode(_) => "failed to encode image"@,
            MergeError::Save(_) => "failed to write the assembled PDF"@,
            MergeError::DocumentNotFound(_) => "stored document not found"@,
            MergeError::Authentication => "remote merge service rejected the credentials"@,
            MergeError::Authorization => "remote merge service refused access"@,
            MergeError::PayloadTooLarge => "remote merge service refused the payload size"@,
            MergeError::RemoteService(_, _) => "remote merge service reported an error"@,
            MergeError::Network(_) => "remote merge service could not be reached"@,
        }
    }
}

} // verus!
