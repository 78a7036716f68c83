//! The errors of the library.
use vstd::prelude::*;

verus! {

/// What went wrong.
#[derive(Debug, PartialEq, Eq, Structural)]
pub enum Error {
    /// A certificate of that name already exists.
    CertNameCollision,
    /// The peer may not call this endpoint.
    Forbidden,
    /// A frame is missing or not what the endpoint expects.
    InvalidArg,
    /// The request carries the wrong number of frames.
    InvalidArgsCount,
    /// A certificate could not be found or lacks its fields.
    InvalidCert,
    /// An update event could not be interpreted.
    InvalidCertFeed,
    /// An unknown certificate type or missing metadata.
    InvalidCertMeta,
    /// The store's root is not a directory.
    InvalidCertPath,
    /// No endpoint of that name.
    InvalidEndpoint,
    /// A ZAP request failed its structural checks.
    InvalidZapRequest,
    /// No configuration could be read.
    MissingConf,
    /// Polling the sockets timed out.
    PollerTimeout,
    /// The ZAP request's version is not "1.0".
    ZapVersion,
}

impl Error {
    /// The text that describes this error.
    pub open spec fn text(&self) -> Seq<char> {
        match self {
            Error::CertNameCollision => "Certificate name already exists"@,
            Error::Forbidden => "Access to this endpoint is forbidden"@,
            Error::InvalidArg => "Invalid argument provided"@,
            Error::InvalidArgsCount => "Invalid number of args provided"@,
            Error::InvalidCert => "Invalid certificate"@,
            Error::InvalidCertFeed => "Invalid message from certificate feed"@,
            Error::InvalidCertMeta => "Invalid certificate metadata"@,
            Error::InvalidCertPath => "Invalid certificate path"@,
            Error::InvalidEndpoint => "Invalid endpoint"@,
            Error::InvalidZapRequest => "Invalid ZAP request"@,
            Error::MissingConf => "Cannot open config"@,
            Error::PollerTimeout => "Timeout while polling sockets"@,
            Error::ZapVersion => "ZAP version is invalid"@,
        }
    }

    /// The text that describes this error, as sent to peers.
    pub fn description(&self) -> (r: &'static str)
        ensures
            r@ == self.text(),
    {
        match self {
            Error::CertNameCollision => "Certificate name already exists",
            Error::Forbidden => "Access to this endpoint is forbidden",
            Error::InvalidArg => "Invalid argument provided",
            Error::InvalidArgsCount => "Invalid number of args provided",
            Error::InvalidCert => "Invalid certificate",
            Error::InvalidCertFeed => "Invalid message from certificate feed",
            Error::InvalidCertMeta => "Invalid certificate metadata",
            Error::InvalidCertPath => "Invalid certificate path",
            Error::InvalidEndpoint => "Invalid endpoint",
            Error::InvalidZapRequest => "Invalid ZAP request",
            Error::MissingConf => "Cannot open config",
            Error::PollerTimeout => "Timeout while polling sockets",
            Error::ZapVersion => "ZAP version is invalid",
        }
    }
}

} // verus!
