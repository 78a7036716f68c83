//! Who sent a request, as the transport's CURVE handshake vouched for it.
use vstd::prelude::*;
use crate::bytes::opt_view;
use crate::cert::{parse_type, CertType};
use crate::error::Error;

verus! {

/// The authenticated peer's name and certificate type.
pub struct RequestMeta {
    pub name: Vec<u8>,
    pub cert_type: CertType,
}

impl RequestMeta {
    /// Reads the peer from the "name" and "type" properties the transport
    /// attached to a request frame. A missing property is `InvalidCert`, a
    /// type that is not accepted `InvalidCertMeta`.
    pub fn new(name: Option<Vec<u8>>, cert_type: Option<Vec<u8>>) -> (r: Result<RequestMeta, Error>)
        ensures
            match (opt_view(name), opt_view(cert_type)) {
                (Some(n), Some(t)) => match parse_type(t) {
                    Some(ct) => (r matches Ok(m) && m.name@ == n && m.cert_type == ct),
                    None => r == Err::<RequestMeta, Error>(Error::InvalidCertMeta),
                },
                _ => r == Err::<RequestMeta, Error>(Error::InvalidCert),
            },
    {
        let name = match name {
            Some(n) => n,
            None => return Err(Error::InvalidCert),
        };
        let t = match cert_type {
            Some(t) => t,
            None => return Err(Error::InvalidCert),
        };
        let cert_type = CertType::from_bytes(t.as_slice())?;
        Ok(RequestMeta { name, cert_type })
    }
}

} // verus!
