//! The header checks that a request passes before its body is touched.

use crate::error::{ErrorKind, IngestError, IngestErrorView};
use crate::text::{quoted_string, quoted_text};
use axum::http::{HeaderMap, HeaderValue};
use vstd::prelude::*;
use vstd::string::{StringExecFns, StringSliceAdditionalSpecFns};

verus! {

/// The header map of the `http` crate, which `axum` hands to its handlers.
#[verifier::external_type_specification]
#[verifier::external_body]
#[verifier::reject_recursive_types(T)]
pub struct ExHeaderMap<T>(HeaderMap<T>);

/// A header value of the `http` crate.
#[verifier::external_type_specification]
#[verifier::external_body]
pub struct ExHeaderValue(HeaderValue);

/// What a header map holds: for each header name, in lower case, the values
/// stored under it, in the order in which they were added.
pub uninterp spec fn header_values(map: HeaderMap<HeaderValue>) -> Map<Seq<char>, Seq<Seq<u8>>>;

/// A character with an upper-case ASCII letter turned into lower case.
pub open spec fn lower_char(c: char) -> char {
    if 'A' <= c <= 'Z' {
        ((c as u8) + 32) as char
    } else {
        c
    }
}

/// A header name as a header map keeps it.
pub open spec fn lower_name(name: Seq<char>) -> Seq<char> {
    Seq::new(name.len(), |i: int| lower_char(name[i]))
}

/// The first of the values stored under a name, if there is one.
pub open spec fn first_stored(values: Map<Seq<char>, Seq<Seq<u8>>>, name: Seq<char>) -> Option<Seq<u8>> {
    if values.contains_key(name) && values[name].len() > 0 {
        Some(values[name][0])
    } else {
        None
    }
}

/// `HeaderMap::get` of the `http` crate with a string key, and
/// `HeaderValue::as_bytes` on what it finds: the bytes of the first value
/// stored under the name, which is compared without regard to case, or
/// `None` where the map holds no value under it.
#[verifier::external_body]
fn first_value(headers: &HeaderMap, name: &str) -> (r: Option<Vec<u8>>)
    ensures
        match r {
            Some(value) => first_stored(header_values(*headers), lower_name(name@)) == Some(value@),
            None => first_stored(header_values(*headers), lower_name(name@)) is None,
        },
{
    match headers.get(name) {
        Some(value) => Some(value.as_bytes().to_vec()),
        None => None,
    }
}

/// What a request says under one header name.
#[derive(Clone, Debug, PartialEq, Eq)]
pub enum HeaderLookup {
    /// The header is there with a value that is not empty.
    Present(Vec<u8>),
    /// The header is there without a value.
    Empty,
    /// The header is not there.
    Absent,
}

/// What a request says under one header name, as a value.
pub enum HeaderLookupView {
    Present(Seq<u8>),
    Empty,
    Absent,
}

impl View for HeaderLookup {
    type V = HeaderLookupView;

    open spec fn view(&self) -> HeaderLookupView {
        match self {
            HeaderLookup::Present(value) => HeaderLookupView::Present(value@),
            HeaderLookup::Empty => HeaderLookupView::Empty,
            HeaderLookup::Absent => HeaderLookupView::Absent,
        }
    }
}

/// What the first stored value of a header, if any, amounts to.
pub open spec fn lookup_of(stored: Option<Seq<u8>>) -> HeaderLookupView {
    match stored {
        None => HeaderLookupView::Absent,
        Some(value) => if value.len() == 0 {
            HeaderLookupView::Empty
        } else {
            HeaderLookupView::Present(value)
        },
    }
}

/// What a request says under `name`, by its header map.
pub open spec fn header_lookup(headers: HeaderMap<HeaderValue>, name: Seq<char>) -> HeaderLookupView {
    lookup_of(first_stored(header_values(headers), lower_name(name)))
}

/// The compression schemes that a body may arrive in.
#[derive(Clone, Copy, Debug, PartialEq, Eq, Structural)]
pub enum Encoding {
    Snappy,
}

/// The wire formats that a body may hold.
#[derive(Clone, Copy, Debug, PartialEq, Eq, Structural)]
pub enum ContentType {
    RemoteWriteV2,
}

/// The header that names the compression of the body.
pub const CONTENT_ENCODING: &'static str = "Content-Encoding";

/// The header that names the wire format of the body.
pub const CONTENT_TYPE: &'static str = "Content-Type";

/// The one `Content-Encoding` that is accepted.
pub const SNAPPY: &'static str = "snappy";

/// The one `Content-Type` that is accepted.
pub const REMOTE_WRITE_V2: &'static str = "application/x-protobuf;proto=io.prometheus.write.v2.Request";

impl Encoding {
    /// The token that names the encoding in a `Content-Encoding` header.
    pub fn token(&self) -> (token: &'static str)
        ensures
            token@ == SNAPPY@,
    {
        match self {
            Encoding::Snappy => SNAPPY,
        }
    }
}

impl ContentType {
    /// The media type that names the wire format in a `Content-Type`
    /// header.
    pub fn media_type(&self) -> (media_type: &'static str)
        ensures
            media_type@ == REMOTE_WRITE_V2@,
    {
        match self {
            ContentType::RemoteWriteV2 => REMOTE_WRITE_V2,
        }
    }
}

/// A result with its failure seen as a value.
pub open spec fn outcome_of<T>(r: Result<T, IngestError>) -> Result<T, IngestErrorView> {
    match r {
        Ok(v) => Ok(v),
        Err(e) => Err(e@),
    }
}

/// The encoding that a `Content-Encoding` header asks for: the supported
/// token passes, an empty value counts as none, any other is refused.
pub open spec fn encoding_of(lookup: HeaderLookupView) -> Result<Encoding, IngestErrorView> {
    match lookup {
        HeaderLookupView::Present(value) => if value == SNAPPY.spec_bytes() {
            Ok(Encoding::Snappy)
        } else {
            Err(
                IngestErrorView {
                    kind: ErrorKind::UnsupportedEncoding,
                    message: "unknown encoding, only snappy supported"@,
                },
            )
        },
        _ => Err(
            IngestErrorView { kind: ErrorKind::MissingEncoding, message: "missing Content-Encoding header"@ },
        ),
    }
}

/// The wire format that a `Content-Type` header names: the supported media
/// type passes, an empty value counts as none, any other is refused and
/// echoed.
pub open spec fn content_type_of(lookup: HeaderLookupView) -> Result<ContentType, IngestErrorView> {
    match lookup {
        HeaderLookupView::Present(value) => if value == REMOTE_WRITE_V2.spec_bytes() {
            Ok(ContentType::RemoteWriteV2)
        } else {
            Err(
                IngestErrorView {
                    kind: ErrorKind::UnsupportedContentType,
                    message: "Unknown remote write content type: "@ + quoted_text(value),
                },
            )
        },
        _ => Err(IngestErrorView { kind: ErrorKind::MissingContentType, message: "missing Content-Type header"@ }),
    }
}

/// Tells whether two byte strings are the same.
pub fn bytes_equal(a: &[u8], b: &[u8]) -> (same: bool)
    ensures
        same == (a@ == b@),
{
    if a.len() != b.len() {
        return false;
    }
    let mut i: usize = 0;
    while i < a.len()
        invariant
            i <= a.len(),
            a.len() == b.len(),
            forall|j: int| 0 <= j < i ==> a@[j] == b@[j],
        decreases a.len() - i,
    {
        if a[i] != b[i] {
            return false;
        }
        i = i + 1;
    }
    assert(a@ =~= b@);
    true
}

impl HeaderLookup {
    /// Sorts the first stored value of a header, if any.
    pub fn classify(stored: Option<Vec<u8>>) -> (lookup: HeaderLookup)
        ensures
            lookup@ == lookup_of(
                match stored {
                    Some(value) => Some(value@),
                    None => None,
                },
            ),
    {
        match stored {
            None => HeaderLookup::Absent,
            Some(value) => if value.len() == 0 {
                HeaderLookup::Empty
            } else {
                HeaderLookup::Present(value)
            },
        }
    }

    /// Looks a header up in the header map of a request.
    pub fn find(headers: &HeaderMap, name: &str) -> (lookup: HeaderLookup)
        ensures
            lookup@ == header_lookup(*headers, name@),
    {
        HeaderLookup::classify(first_value(headers, name))
    }
}

/// Decides on the encoding that a `Content-Encoding` header asks for.
pub fn negotiate_encoding(lookup: &HeaderLookup) -> (r: Result<Encoding, IngestError>)
    ensures
        outcome_of(r) == encoding_of(lookup@),
{
    match lookup {
        HeaderLookup::Present(value) => {
            if bytes_equal(value.as_slice(), SNAPPY.as_bytes()) {
                Ok(Encoding::Snappy)
            } else {
                Err(IngestError::with_text(ErrorKind::UnsupportedEncoding, "unknown encoding, only snappy supported"))
            }
        },
        _ => Err(IngestError::with_text(ErrorKind::MissingEncoding, "missing Content-Encoding header")),
    }
}

/// Decides on the wire format that a `Content-Type` header names.
pub fn negotiate_content_type(lookup: &HeaderLookup) -> (r: Result<ContentType, IngestError>)
    ensures
        outcome_of(r) == content_type_of(lookup@),
{
    match lookup {
        HeaderLookup::Present(value) => {
            if bytes_equal(value.as_slice(), REMOTE_WRITE_V2.as_bytes()) {
                Ok(ContentType::RemoteWriteV2)
            } else {
                let mut message = String::from_str("Unknown remote write content type: ");
                let echoed = quoted_string(value.as_slice());
                message.append(echoed.as_str());
                Err(IngestError { kind: ErrorKind::UnsupportedContentType, message })
            }
        },
        _ => Err(IngestError::with_text(ErrorKind::MissingContentType, "missing Content-Type header")),
    }
}

/// Checks the `Content-Encoding` header of a request.
pub fn check_content_encoding(headers: &HeaderMap) -> (r: Result<Encoding, IngestError>)
    ensures
        outcome_of(r) == encoding_of(header_lookup(*headers, CONTENT_ENCODING@)),
{
    let lookup = HeaderLookup::find(headers, CONTENT_ENCODING);
    negotiate_encoding(&lookup)
}

/// Checks the `Content-Type` header of a request.
pub fn check_content_type(headers: &HeaderMap) -> (r: Result<ContentType, IngestError>)
    ensures
        outcome_of(r) == content_type_of(header_lookup(*headers, CONTENT_TYPE@)),
{
    let lookup = HeaderLookup::find(headers, CONTENT_TYPE);
    negotiate_content_type(&lookup)
}

} // verus!
