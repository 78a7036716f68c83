//! Certificate types and certificates.
use vstd::prelude::*;
use crate::bytes::{bytes_eq, to_vec};
use crate::meta::{
    find_meta_value, lemma_meta_value_fits, lemma_parse_property, meta_value, parse_props, prop_value, property,
    property_fits, push_property, Props,
};
use crate::error::Error;
use vstd::utf8::decode_utf8;

verus! {

broadcast use vstd::utf8::encode_utf8_decode_utf8;

/// The kind of principal a certificate identifies. `Runtime` is reserved: it
/// can be named but is never accepted when decoded.
#[derive(Clone, Copy, Debug, PartialEq, Eq, Structural)]
pub enum CertType {
    Host,
    Runtime,
    User,
}

/// The text of the tag "host".
pub open spec fn host_chars() -> Seq<char> {
    seq!['h', 'o', 's', 't']
}

/// The text of the tag "user".
pub open spec fn user_chars() -> Seq<char> {
    seq!['u', 's', 'e', 'r']
}

/// The text of the tag "runtime".
pub open spec fn runtime_chars() -> Seq<char> {
    seq!['r', 'u', 'n', 't', 'i', 'm', 'e']
}

/// The bytes of the tag "host".
pub open spec fn host_tag() -> Seq<u8> {
    seq![104u8, 111, 115, 116]
}

/// The bytes of the tag "user".
pub open spec fn user_tag() -> Seq<u8> {
    seq![117u8, 115, 101, 114]
}

/// The bytes of the tag "runtime".
pub open spec fn runtime_tag() -> Seq<u8> {
    seq![114u8, 117, 110, 116, 105, 109, 101]
}

/// The certificate type that a textual tag names, if it is an accepted one.
pub open spec fn parse_type_chars(s: Seq<char>) -> Option<CertType> {
    if s == host_chars() {
        Some(CertType::Host)
    } else if s == user_chars() {
        Some(CertType::User)
    } else {
        None
    }
}

/// The certificate type that a tag names, if it is an accepted one.
pub open spec fn parse_type(b: Seq<u8>) -> Option<CertType> {
    if b == host_tag() {
        Some(CertType::Host)
    } else if b == user_tag() {
        Some(CertType::User)
    } else {
        None
    }
}

impl CertType {
    /// The textual tag of this type.
    pub open spec fn chars(self) -> Seq<char> {
        match self {
            CertType::Host => host_chars(),
            CertType::Runtime => runtime_chars(),
            CertType::User => user_chars(),
        }
    }

    /// The tag of this type as bytes, as it stands in frames and metadata.
    pub open spec fn tag(self) -> Seq<u8> {
        match self {
            CertType::Host => host_tag(),
            CertType::Runtime => runtime_tag(),
            CertType::User => user_tag(),
        }
    }

    /// Parses a textual tag: "host" and "user" are accepted, anything else
    /// (the reserved "runtime" too) is `InvalidCertMeta`.
    pub fn from_str(ctype: &str) -> (r: Result<CertType, Error>)
        ensures
            r == match parse_type_chars(ctype@) {
                Some(t) => Ok::<CertType, Error>(t),
                None => Err(Error::InvalidCertMeta),
            },
    {
        let b = ctype.as_bytes();
        let host = "host".as_bytes();
        let user = "user".as_bytes();
        proof {
            reveal_strlit("host");
            reveal_strlit("user");
            assert(decode_utf8(b@) == ctype@);
            assert(decode_utf8(host@) == host_chars());
            assert(decode_utf8(user@) == user_chars());
        }
        if bytes_eq(b, host) {
            Ok(CertType::Host)
        } else if bytes_eq(b, user) {
            Ok(CertType::User)
        } else {
            Err(Error::InvalidCertMeta)
        }
    }

    /// The textual tag of this type.
    pub fn to_str(&self) -> (r: &'static str)
        ensures
            r@ == self.chars(),
    {
        proof {
            reveal_strlit("host");
            reveal_strlit("user");
            reveal_strlit("runtime");
        }
        match self {
            CertType::Host => "host",
            CertType::Runtime => "runtime",
            CertType::User => "user",
        }
    }
}

/// The bytes of the metadata property name "name".
pub open spec fn name_key() -> Seq<u8> {
    seq![110u8, 97, 109, 101]
}

/// The bytes of the metadata property name "type".
pub open spec fn type_key() -> Seq<u8> {
    seq![116u8, 121, 112, 101]
}

fn name_key_bytes() -> (r: Vec<u8>)
    ensures
        r@ == name_key(),
{
    let r: Vec<u8> = vec![110u8, 97, 109, 101];
    assert(r@ =~= name_key());
    r
}

fn type_key_bytes() -> (r: Vec<u8>)
    ensures
        r@ == type_key(),
{
    let r: Vec<u8> = vec![116u8, 121, 112, 101];
    assert(r@ =~= type_key());
    r
}

impl CertType {
    /// The tag of this type as bytes.
    pub fn to_bytes(&self) -> (r: Vec<u8>)
        ensures
            r@ == self.tag(),
    {
        let r: Vec<u8> = match self {
            CertType::Host => vec![104u8, 111, 115, 116],
            CertType::Runtime => vec![114u8, 117, 110, 116, 105, 109, 101],
            CertType::User => vec![117u8, 115, 101, 114],
        };
        assert(r@ =~= self.tag());
        r
    }

    /// Parses a tag given as bytes: "host" and "user" are accepted, anything
    /// else is `InvalidCertMeta`.
    pub fn from_bytes(b: &[u8]) -> (r: Result<CertType, Error>)
        ensures
            r == match parse_type(b@) {
                Some(t) => Ok::<CertType, Error>(t),
                None => Err(Error::InvalidCertMeta),
            },
    {
        let host = CertType::Host.to_bytes();
        let user = CertType::User.to_bytes();
        if bytes_eq(b, host.as_slice()) {
            Ok(CertType::Host)
        } else if bytes_eq(b, user.as_slice()) {
            Ok(CertType::User)
        } else {
            Err(Error::InvalidCertMeta)
        }
    }
}

/// The encoded metadata of a certificate named `name` of type `t`.
pub open spec fn meta_of(name: Seq<u8>, t: CertType) -> Seq<u8> {
    property(name_key(), name) + property(type_key(), t.tag())
}

/// What is known of a certificate: its public key in text form, its secret
/// key where this node holds it, its name and its type.
pub struct CertView {
    pub public: Seq<u8>,
    pub secret: Option<Seq<u8>>,
    pub name: Seq<u8>,
    pub cert_type: CertType,
}

impl CertView {
    /// The certificate can travel on the update feed: its name fits the
    /// metadata encoding and its type is an accepted one, not the reserved
    /// `Runtime`.
    pub open spec fn fits(self) -> bool {
        self.name.len() < 4294967296 && self.cert_type != CertType::Runtime
    }

    /// The same certificate without its secret key.
    pub open spec fn public_only(self) -> CertView {
        CertView { secret: None, ..self }
    }
}

/// The certificate that a public key and encoded metadata describe, where the
/// metadata carries a name and an accepted type.
pub open spec fn decode_cert(public: Seq<u8>, meta: Seq<u8>) -> Option<CertView> {
    match (meta_value(meta, name_key()), meta_value(meta, type_key())) {
        (Some(n), Some(t)) => match parse_type(t) {
            Some(ct) => Some(CertView { public, secret: None, name: n, cert_type: ct }),
            None => None,
        },
        _ => None,
    }
}

/// A named key pair with a type. The keys are held in their 40-character
/// Z85 text form.
pub struct Cert {
    public_txt: Vec<u8>,
    secret_txt: Option<Vec<u8>>,
    name: Vec<u8>,
    cert_type: CertType,
}

impl View for Cert {
    type V = CertView;

    closed spec fn view(&self) -> CertView {
        CertView {
            public: self.public_txt@,
            secret: match self.secret_txt {
                Some(s) => Some(s@),
                None => None,
            },
            name: self.name@,
            cert_type: self.cert_type,
        }
    }
}

impl Cert {
    /// A certificate for `name` and `cert_type` around a freshly generated
    /// key pair, given in text form.
    pub fn new(name: &[u8], cert_type: CertType, public_txt: Vec<u8>, secret_txt: Vec<u8>) -> (r: Cert)
        requires
            cert_type != CertType::Runtime,
        ensures
            r@ == (CertView {
                public: public_txt@,
                secret: Some(secret_txt@),
                name: name@,
                cert_type,
            }),
    {
        Cert { public_txt, secret_txt: Some(secret_txt), name: to_vec(name), cert_type }
    }

    /// Rebuilds a remote certificate, which has no secret key, from its
    /// public key and its encoded metadata. Metadata that is malformed, lacks
    /// the name or the type, or names a type that is not accepted gives
    /// `InvalidCert`.
    pub fn from_zcert(public_txt: &[u8], meta: &[u8]) -> (r: Result<Cert, Error>)
        ensures
            match r {
                Ok(c) => decode_cert(public_txt@, meta@) == Some(c@) && c@.fits(),
                Err(e) => decode_cert(public_txt@, meta@) == None::<CertView> && e == Error::InvalidCert,
            },
    {
        let nk = name_key_bytes();
        let tk = type_key_bytes();
        proof {
            lemma_meta_value_fits(meta@, name_key());
        }
        let name = match find_meta_value(meta, nk.as_slice()) {
            Some(n) => n,
            None => return Err(Error::InvalidCert),
        };
        let t = match find_meta_value(meta, tk.as_slice()) {
            Some(t) => t,
            None => return Err(Error::InvalidCert),
        };
        match CertType::from_bytes(t.as_slice()) {
            Ok(cert_type) => Ok(Cert { public_txt: to_vec(public_txt), secret_txt: None, name, cert_type }),
            Err(_) => Err(Error::InvalidCert),
        }
    }

    /// The name and type in the transport's metadata encoding.
    pub fn encode_meta(&self) -> (r: Vec<u8>)
        requires
            self@.fits(),
        ensures
            r@ == meta_of(self@.name, self@.cert_type),
    {
        let mut r: Vec<u8> = Vec::new();
        let nk = name_key_bytes();
        let tk = type_key_bytes();
        let t = self.cert_type.to_bytes();
        push_property(&mut r, nk.as_slice(), self.name.as_slice());
        push_property(&mut r, tk.as_slice(), t.as_slice());
        assert(r@ =~= meta_of(self@.name, self@.cert_type));
        r
    }

    /// A copy of this certificate.
    pub fn duplicate(&self) -> (r: Cert)
        ensures
            r@ == self@,
    {
        let secret_txt = match &self.secret_txt {
            Some(s) => Some(to_vec(s.as_slice())),
            None => None,
        };
        Cert {
            public_txt: to_vec(self.public_txt.as_slice()),
            secret_txt,
            name: to_vec(self.name.as_slice()),
            cert_type: self.cert_type,
        }
    }

    /// A copy of this certificate without its secret key.
    pub fn public_only(&self) -> (r: Cert)
        ensures
            r@ == self@.public_only(),
    {
        Cert {
            public_txt: to_vec(self.public_txt.as_slice()),
            secret_txt: None,
            name: to_vec(self.name.as_slice()),
            cert_type: self.cert_type,
        }
    }

    /// The certificate's type.
    pub fn cert_type(&self) -> (r: CertType)
        ensures
            r == self@.cert_type,
    {
        self.cert_type
    }

    /// The certificate's name.
    pub fn name(&self) -> (r: &[u8])
        ensures
            r@ == self@.name,
    {
        self.name.as_slice()
    }

    /// The public key in text form.
    pub fn public_txt(&self) -> (r: &[u8])
        ensures
            r@ == self@.public,
    {
        self.public_txt.as_slice()
    }

    /// The secret key in text form, where this node holds it.
    pub fn secret_txt(&self) -> (r: Option<&[u8]>)
        ensures
            match r {
                Some(s) => self@.secret == Some(s@),
                None => self@.secret == None::<Seq<u8>>,
            },
    {
        match &self.secret_txt {
            Some(s) => Some(s.as_slice()),
            None => None,
        }
    }
}

proof fn lemma_two_props(k1: Seq<u8>, v1: Seq<u8>, k2: Seq<u8>, v2: Seq<u8>)
    requires
        property_fits(k1, v1),
        property_fits(k2, v2),
        k1 != k2,
    ensures
        meta_value(property(k1, v1) + property(k2, v2), k1) == Some(v1),
        meta_value(property(k1, v1) + property(k2, v2), k2) == Some(v2),
{
    let second = property(k2, v2);
    let empty = Seq::<u8>::empty();
    assert(parse_props(empty) == Some(Seq::<(Seq<u8>, Seq<u8>)>::empty()));
    lemma_parse_property(k2, v2, empty);
    assert(second + empty =~= second);
    let tail: Props = seq![(k2, v2)] + Seq::empty();
    assert(parse_props(second) == Some(tail));
    lemma_parse_property(k1, v1, second);
    let ps: Props = seq![(k1, v1)] + tail;
    assert(parse_props(property(k1, v1) + second) == Some(ps));
    assert(ps[0] == (k1, v1));
    assert(ps.drop_first() =~= tail);
    assert(tail[0] == (k2, v2));
    assert(prop_value(ps, k1) == Some(v1));
    assert(prop_value(tail, k2) == Some(v2));
    assert(prop_value(ps, k2) == Some(v2));
}

/// Metadata written for a certificate reads back as the same name and type.
pub proof fn lemma_meta_round_trip(name: Seq<u8>, t: CertType)
    requires
        name.len() < 4294967296,
    ensures
        meta_value(meta_of(name, t), name_key()) == Some(name),
        meta_value(meta_of(name, t), type_key()) == Some(t.tag()),
{
    assert(name_key()[0] != type_key()[0]);
    assert(t.tag().len() < 8);
    lemma_two_props(name_key(), name, type_key(), t.tag());
}

/// A certificate sent as its public key and encoded metadata is rebuilt with
/// the same public key, name and type, and no secret key.
pub proof fn lemma_decode_encoded(c: CertView)
    requires
        c.fits(),
    ensures
        decode_cert(c.public, meta_of(c.name, c.cert_type)) == Some(c.public_only()),
{
    lemma_meta_round_trip(c.name, c.cert_type);
}

} // verus!
