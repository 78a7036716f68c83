use inauth::api::CertApi;
use inauth::cert::{Cert, CertType};
use inauth::cert_cache::CertCache;
use inauth::error::Error;
use inauth::msg::error_reply;
use inauth::request_meta::RequestMeta;
use inauth::storage::PersistDisk;

fn key(tag: &str) -> Vec<u8> {
    let mut k = tag.as_bytes().to_vec();
    while k.len() < 40 {
        k.push(b'x');
    }
    k
}

fn user_peer() -> RequestMeta {
    RequestMeta::new(Some(b"admin".to_vec()), Some(b"user".to_vec())).unwrap()
}

fn host_peer() -> RequestMeta {
    RequestMeta::new(Some(b"web1".to_vec()), Some(b"host".to_vec())).unwrap()
}

fn create_api(certs: Vec<Cert>) -> CertApi {
    let mut disk = PersistDisk::new("/var/lib/certs", true).unwrap();
    for cert in &certs {
        disk.create(cert).unwrap();
    }
    let cache = CertCache::new(Some(disk.dump()));
    CertApi::new(disk, cache)
}

fn args(frames: &[&str]) -> Vec<Vec<u8>> {
    frames.iter().map(|f| f.as_bytes().to_vec()).collect()
}

#[test]
fn test_list() {
    let host = Cert::new(b"luke.jedi.org", CertType::Host, key("luke-host"), key("s1"));
    let user = Cert::new(b"luke_vader", CertType::User, key("luke-user"), key("s2"));
    let api = create_api(vec![host, user]);

    let reply = api.list(&args(&["user"]), b"router_id").unwrap();
    assert_eq!(reply, args(&["router_id", "Ok", "luke_vader"]));

    let reply = api.list(&args(&["host"]), b"router_id").unwrap();
    assert_eq!(reply, args(&["router_id", "Ok", "luke.jedi.org"]));
}

#[test]
fn list_errors() {
    let api = create_api(vec![]);
    assert_eq!(api.list(&args(&["robot"]), b"r").err(), Some(Error::InvalidCertMeta));
    assert_eq!(api.list(&args(&[]), b"r").err(), Some(Error::InvalidArgsCount));
    assert_eq!(api.list(&args(&["user", "host"]), b"r").err(), Some(Error::InvalidArgsCount));
    assert_eq!(api.list(&args(&["user"]), b"r").unwrap(), args(&["r", "Ok"]));
}

#[test]
fn test_lookup() {
    let cert = Cert::new(b"r2d2", CertType::Host, key("r2d2"), key("r2d2-s"));
    let api = create_api(vec![cert]);

    assert!(api.lookup(&args(&["Han Solo"]), b"router_id").is_err());

    let reply = api.lookup(&args(&["r2d2"]), b"router_id").unwrap();
    assert_eq!(reply, vec![b"router_id".to_vec(), b"Ok".to_vec(), key("r2d2")]);
}

#[test]
fn api_test_create() {
    let mut api = create_api(vec![]);
    let created = api
        .create(&user_peer(), &args(&["host", "usetheforks.com"]), key("forks"), key("forks-s"), b"router_id")
        .unwrap();

    assert_eq!(created.reply.len(), 5);
    assert_eq!(created.reply[0], b"router_id".to_vec());
    assert_eq!(created.reply[1], b"Ok".to_vec());
    let pubkey = created.reply[2].clone();
    assert_eq!(pubkey, key("forks"));

    assert_eq!(created.publish[0], b"host".to_vec());
    assert_eq!(created.publish[1], b"ADD".to_vec());
    assert_eq!(created.publish[2], pubkey);
    assert_eq!(created.path, b"/var/lib/certs/usetheforks.com.crt".to_vec());
}

#[test]
fn api_test_delete() {
    let cert = Cert::new(b"c3po", CertType::Host, key("c3po"), key("c3po-s"));
    let mut api = create_api(vec![cert]);

    assert!(api.delete(&user_peer(), &args(&["Han Solo's Millenium Falcon Ignition Key"]), b"router_id").is_err());

    let deleted = api.delete(&user_peer(), &args(&["c3po"]), b"router_id").unwrap();
    assert_eq!(deleted.reply, args(&["router_id", "Ok"]));
    assert_eq!(deleted.publish, vec![b"host".to_vec(), b"DEL".to_vec(), key("c3po")]);
    assert_eq!(deleted.path, b"/var/lib/certs/c3po.crt".to_vec());
    assert!(api.lookup(&args(&["c3po"]), b"router_id").is_err());
}

#[test]
fn create_user_then_list_scenario() {
    let mut api = create_api(vec![]);
    let created = api.create(&user_peer(), &args(&["user", "luke"]), key("luke"), key("luke-s"), b"rid").unwrap();
    let meta = created.cert.encode_meta();
    assert_eq!(created.reply, vec![b"rid".to_vec(), b"Ok".to_vec(), key("luke"), key("luke-s"), meta.clone()]);
    assert_eq!(created.publish, vec![b"user".to_vec(), b"ADD".to_vec(), key("luke"), meta]);
    assert_eq!(api.list(&args(&["user"]), b"rid").unwrap(), args(&["rid", "Ok", "luke"]));
}

#[test]
fn create_then_lookup_scenario() {
    let mut api = create_api(vec![]);
    api.create(&user_peer(), &args(&["host", "r2d2"]), key("r2d2"), key("r2d2-s"), b"rid").unwrap();
    assert_eq!(
        api.lookup(&args(&["r2d2"]), b"rid").unwrap(),
        vec![b"rid".to_vec(), b"Ok".to_vec(), key("r2d2")]
    );
    let err = api.lookup(&args(&["han"]), b"rid").unwrap_err();
    assert_eq!(err, Error::InvalidCert);
    assert_eq!(err.description(), "Invalid certificate");
    let reply = error_reply(b"rid", &err);
    assert_eq!(reply, vec![b"rid".to_vec(), b"Err".to_vec(), b"Invalid certificate".to_vec()]);
}

#[test]
fn create_by_host_is_forbidden() {
    let mut api = create_api(vec![]);
    let err = api.create(&host_peer(), &args(&["user", "leia"]), key("leia"), key("leia-s"), b"rid").err();
    assert_eq!(err, Some(Error::Forbidden));
    assert_eq!(Error::Forbidden.description(), "Access to this endpoint is forbidden");
    assert!(api.lookup(&args(&["leia"]), b"rid").is_err());
    assert_eq!(api.list(&args(&["user"]), b"rid").unwrap(), args(&["rid", "Ok"]));
    let err = api.delete(&host_peer(), &args(&["leia"]), b"rid").err();
    assert_eq!(err, Some(Error::Forbidden));
}

#[test]
fn create_errors() {
    let mut api = create_api(vec![]);
    let peer = user_peer();
    assert_eq!(api.create(&peer, &args(&["user"]), key("a"), key("b"), b"r").err(), Some(Error::InvalidArgsCount));
    assert_eq!(api.create(&peer, &args(&["runtime", "x"]), key("a"), key("b"), b"r").err(), Some(Error::InvalidCertMeta));
    api.create(&peer, &args(&["user", "dup"]), key("a"), key("b"), b"r").unwrap();
    assert_eq!(
        api.create(&peer, &args(&["host", "dup"]), key("c"), key("d"), b"r").err(),
        Some(Error::CertNameCollision)
    );
    assert_eq!(api.delete(&peer, &args(&[]), b"r").err(), Some(Error::InvalidArgsCount));
}

#[test]
fn test_error_handler() {
    let reply = error_reply(b"router_id", &Error::Forbidden);
    assert_eq!(
        reply,
        vec![b"router_id".to_vec(), b"Err".to_vec(), b"Access to this endpoint is forbidden".to_vec()]
    );
}

#[test]
fn request_meta_test_new() {
    assert!(RequestMeta::new(Some(b"ben.dover".to_vec()), Some(b"user".to_vec())).is_ok());
    assert_eq!(RequestMeta::new(None, Some(b"user".to_vec())).err(), Some(Error::InvalidCert));
    assert_eq!(RequestMeta::new(Some(b"b".to_vec()), None).err(), Some(Error::InvalidCert));
    assert_eq!(RequestMeta::new(Some(b"b".to_vec()), Some(b"cow".to_vec())).err(), Some(Error::InvalidCertMeta));
}

#[test]
fn peer_certificates_are_listed_and_looked_up() {
    let cert = Cert::new(b"r2d2", CertType::Host, key("r2d2"), key("r2d2-s"));
    let mut api = create_api(vec![cert]);
    let peer_cert = Cert::new(b"bb8", CertType::Host, key("bb8"), key("bb8-s"));
    let event = vec![b"host".to_vec(), b"ADD".to_vec(), key("bb8"), peer_cert.encode_meta()];
    api.apply_feed(&event).unwrap();
    assert_eq!(api.lookup(&args(&["bb8"]), b"rid").unwrap(), vec![b"rid".to_vec(), b"Ok".to_vec(), key("bb8")]);
    assert_eq!(api.lookup(&args(&["r2d2"]), b"rid").unwrap(), vec![b"rid".to_vec(), b"Ok".to_vec(), key("r2d2")]);
    let mut listed = api.list(&args(&["host"]), b"rid").unwrap();
    listed[2..].sort();
    assert_eq!(listed, args(&["rid", "Ok", "bb8", "r2d2"]));
    assert_eq!(api.list(&args(&["user"]), b"rid").unwrap(), args(&["rid", "Ok"]));
}
