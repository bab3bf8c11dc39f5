//! Errors emitted by `dcmfree`, and the messages they are shown with.

use vstd::prelude::*;

use crate::text::{hex_digits, hex_fixed};

verus! {

/// `std::io::Error`, carried through unchanged as the cause of an I/O failure.
#[verifier::external_type_specification]
#[verifier::external_body]
pub struct ExIoError(std::io::Error);

/// Errors emitted by `dcmfree`.
#[derive(Debug)]
pub enum DcmFreeError {
    /// The layers directory does not exist.
    LayersDirMissing(String),
    /// The process is not elevated.
    NotElevated,
    /// A privilege could not be enabled; `source` says why.
    PrivilegeAcquireFailed { privilege: String, source: String },
    /// `HcsDestroyLayer` returned a failure HRESULT.
    HcsDestroyFailed { path: String, hresult: u32 },
    /// Another HCS operation returned a failure HRESULT.
    HcsOperationFailed { operation: String, hresult: u32, details: String },
    /// Querying Docker failed.
    DockerQueryFailed(String),
    /// An I/O operation on `path` failed.
    Io { path: String, source: std::io::Error },
}

/// Renders `e` through `std::io::Error`'s `Display` impl.
///
/// Trusted, and nothing is stated of the text: for operating-system errors
/// it comes from the platform's message tables.
#[verifier::external_body]
fn io_error_text(e: &std::io::Error) -> String {
    e.to_string()
}

/// "0x" followed by the eight-digit upper-case hexadecimal numeral of `h`.
pub open spec fn hresult_text(h: u32) -> Seq<char> {
    "0x"@ + hex_digits(h as nat, 8)
}

/// The message of every variant except `Io`, whose cause's text is not
/// stated (see `DcmFreeError::message`).
pub open spec fn error_text(e: DcmFreeError) -> Seq<char> {
    match e {
        DcmFreeError::LayersDirMissing(p) => "layers directory not found: "@ + p@,
        DcmFreeError::NotElevated => "not running as Administrator; HCS layer destruction requires elevation"@,
        DcmFreeError::PrivilegeAcquireFailed { privilege, source } => "failed to acquire privilege "@
            + privilege@ + ": "@ + source@,
        DcmFreeError::HcsDestroyFailed { path, hresult } => "HcsDestroyLayer failed for "@ + path@
            + ": HRESULT "@ + hresult_text(hresult),
        DcmFreeError::HcsOperationFailed { operation, hresult, details } => "HCS operation failed ("@
            + operation@ + "): HRESULT "@ + hresult_text(hresult) + if details@.len() == 0 {
            Seq::empty()
        } else {
            " \u{2014} "@ + details@
        },
        DcmFreeError::DockerQueryFailed(m) => "docker query failed: "@ + m@,
        DcmFreeError::Io { path, .. } => "io error at "@ + path@ + ": "@,
    }
}

/// The message of an I/O failure at `path` whose cause reads `cause`.
pub fn io_message(path: &str, cause: &str) -> (s: String)
    ensures
        s@ == "io error at "@ + path@ + ": "@ + cause@,
{
    let mut s = "io error at ".to_owned();
    s.append(path);
    s.append(": ");
    s.append(cause);
    s
}

impl DcmFreeError {
    /// The I/O failure at `path` caused by `source`.
    pub fn io(path: String, source: std::io::Error) -> (e: Self)
        ensures
            e == (DcmFreeError::Io { path, source }),
    {
        DcmFreeError::Io { path, source }
    }

    /// The message this error is shown with. For `Io` it is `io_message` of
    /// the path and the cause's own text (as its `Display` impl renders it).
    pub fn message(&self) -> (s: String)
        ensures
            !(self is Io) ==> s@ == error_text(*self),
            self is Io ==> s@.len() >= error_text(*self).len() && s@.take(
                error_text(*self).len() as int,
            ) == error_text(*self),
    {
        match self {
            DcmFreeError::LayersDirMissing(p) => {
                let mut s = "layers directory not found: ".to_owned();
                s.append(p.as_str());
                s
            },
            DcmFreeError::NotElevated => {
                "not running as Administrator; HCS layer destruction requires elevation".to_owned()
            },
            DcmFreeError::PrivilegeAcquireFailed { privilege, source } => {
                let mut s = "failed to acquire privilege ".to_owned();
                s.append(privilege.as_str());
                s.append(": ");
                s.append(source.as_str());
                s
            },
            DcmFreeError::HcsDestroyFailed { path, hresult } => {
                let mut s = "HcsDestroyLayer failed for ".to_owned();
                s.append(path.as_str());
                s.append(": HRESULT ");
                s.append("0x");
                let h = hex_fixed(*hresult, 8);
                s.append(h.as_str());
                assert(s@ =~= error_text(*self));
                s
            },
            DcmFreeError::HcsOperationFailed { operation, hresult, details } => {
                let mut s = "HCS operation failed (".to_owned();
                s.append(operation.as_str());
                s.append("): HRESULT ");
                s.append("0x");
                let h = hex_fixed(*hresult, 8);
                s.append(h.as_str());
                if !details.as_str().is_empty() {
                    s.append(" \u{2014} ");
                    s.append(details.as_str());
                }
                assert(s@ =~= error_text(*self));
                s
            },
            DcmFreeError::DockerQueryFailed(m) => {
                let mut s = "docker query failed: ".to_owned();
                s.append(m.as_str());
                s
            },
            DcmFreeError::Io { path, source } => {
                let cause = io_error_text(source);
                let s = io_message(path.as_str(), cause.as_str());
                assert(s@.take(error_text(*self).len() as int) =~= error_text(*self));
                s
            },
        }
    }
}

} // verus!
