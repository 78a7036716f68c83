use inauth::cert::{Cert, CertType};
use inauth::error::Error;

fn key(tag: &str) -> Vec<u8> {
    let mut k = tag.as_bytes().to_vec();
    while k.len() < 40 {
        k.push(b'x');
    }
    k
}

fn meta_bytes(props: &[(&str, &str)]) -> Vec<u8> {
    let mut out = Vec::new();
    for (n, v) in props {
        out.push(n.len() as u8);
        out.extend_from_slice(n.as_bytes());
        out.extend_from_slice(&(v.len() as u32).to_be_bytes());
        out.extend_from_slice(v.as_bytes());
    }
    out
}

#[test]
fn test_convert_cert_type() {
    assert!(CertType::from_str("moo").is_err());
    assert_eq!(CertType::from_str("host").unwrap(), CertType::Host);
    assert_eq!(CertType::User.to_str(), "user");
}

#[test]
fn reserved_runtime_type_is_rejected() {
    assert_eq!(CertType::Runtime.to_str(), "runtime");
    assert_eq!(CertType::from_str("runtime"), Err(Error::InvalidCertMeta));
    assert_eq!(CertType::from_bytes(b"user"), Ok(CertType::User));
    assert_eq!(CertType::from_bytes(b"hosts"), Err(Error::InvalidCertMeta));
    assert_eq!(CertType::Host.to_bytes(), b"host".to_vec());
}

#[test]
fn cert_test_new() {
    let c = Cert::new(b"test_user", CertType::User, key("pk"), key("sk"));
    assert_eq!(c.name(), b"test_user");
    assert_eq!(c.cert_type(), CertType::User);
    assert_eq!(c.public_txt(), key("pk").as_slice());
    assert_eq!(c.secret_txt(), Some(key("sk").as_slice()));
}

#[test]
fn test_from_zcert() {
    assert!(Cert::from_zcert(&key("pk"), &[]).is_err());

    let meta = meta_bytes(&[("name", "test_cert"), ("type", "host")]);
    let c = Cert::from_zcert(&key("pk"), &meta).unwrap();
    assert_eq!(c.name(), b"test_cert");
    assert_eq!(c.cert_type(), CertType::Host);
    assert_eq!(c.secret_txt(), None);
}

#[test]
fn from_zcert_refuses_bad_metadata() {
    let only_name = meta_bytes(&[("name", "a")]);
    assert_eq!(Cert::from_zcert(&key("pk"), &only_name).err(), Some(Error::InvalidCert));
    let runtime = meta_bytes(&[("name", "a"), ("type", "runtime")]);
    assert_eq!(Cert::from_zcert(&key("pk"), &runtime).err(), Some(Error::InvalidCert));
    let mut cut = meta_bytes(&[("name", "a"), ("type", "user")]);
    cut.pop();
    assert_eq!(Cert::from_zcert(&key("pk"), &cut).err(), Some(Error::InvalidCert));
    let reordered = meta_bytes(&[("type", "user"), ("extra", "1"), ("name", "b")]);
    let c = Cert::from_zcert(&key("pk"), &reordered).unwrap();
    assert_eq!(c.name(), b"b");
    assert_eq!(c.cert_type(), CertType::User);
}

#[test]
fn encode_meta_exact_bytes() {
    let c = Cert::new(b"dan", CertType::User, key("pk"), key("sk"));
    let expected: Vec<u8> = vec![
        4, b'n', b'a', b'm', b'e', 0, 0, 0, 3, b'd', b'a', b'n', 4, b't', b'y', b'p', b'e', 0, 0, 0, 4, b'u',
        b's', b'e', b'r',
    ];
    assert_eq!(c.encode_meta(), expected);
    let back = Cert::from_zcert(c.public_txt(), &c.encode_meta()).unwrap();
    assert_eq!(back.name(), b"dan");
    assert_eq!(back.cert_type(), CertType::User);
    assert_eq!(back.secret_txt(), None);
}
