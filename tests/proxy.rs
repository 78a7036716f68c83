use inauth::api::CertApi;
use inauth::cert::{Cert, CertType};
use inauth::cert_cache::CertCache;
use inauth::error::Error;
use inauth::storage::PersistDisk;
use inauth::zap_proxy::on_subscription;

fn key(tag: &str) -> Vec<u8> {
    let mut k = tag.as_bytes().to_vec();
    while k.len() < 40 {
        k.push(b'x');
    }
    k
}

fn frame(code: u8, topic: &str) -> Vec<u8> {
    let mut f = vec![code];
    f.extend_from_slice(topic.as_bytes());
    f
}

#[test]
fn test_pubsub() {
    let user_cert = Cert::new(b"john.smith", CertType::User, key("john"), key("john-s"));
    let user_pubkey = user_cert.public_txt().to_vec();
    let user_meta = user_cert.encode_meta();
    let host_cert = Cert::new(b"example.com", CertType::Host, key("example"), key("example-s"));
    let host_pubkey = host_cert.public_txt().to_vec();
    let host_meta = host_cert.encode_meta();

    let disk = PersistDisk::new("/tmp/certs", true).unwrap();
    let mut api = CertApi::new(disk, CertCache::new(Some(vec![user_cert])));

    let msg = on_subscription(api.cache(), &frame(1, "user")).unwrap().unwrap();
    assert_eq!(msg[1], b"ADD".to_vec());
    assert_eq!(msg[2], user_pubkey);
    assert_eq!(msg[3], user_meta);

    assert!(on_subscription(api.cache(), &frame(0, "user")).unwrap().is_none());

    let msg = on_subscription(api.cache(), &frame(1, "")).unwrap().unwrap();
    assert_eq!(msg[2], user_pubkey);

    let event = vec![b"host".to_vec(), b"ADD".to_vec(), host_pubkey.clone(), host_meta.clone()];
    api.apply_feed(&event).unwrap();
    assert!(api.cache().get(&host_pubkey).is_some());

    let msg = on_subscription(api.cache(), &frame(1, "host")).unwrap().unwrap();
    assert_eq!(msg, vec![b"host".to_vec(), b"ADD".to_vec(), host_pubkey, host_meta]);
}

#[test]
fn subscribe_unsubscribe_subscribe() {
    let c = Cert::new(b"u", CertType::User, key("u"), key("u-s"));
    let cache = CertCache::new(Some(vec![c]));
    assert!(on_subscription(&cache, &frame(1, "user")).unwrap().is_some());
    assert!(on_subscription(&cache, &frame(0, "user")).unwrap().is_none());
    assert!(on_subscription(&cache, &frame(1, "user")).unwrap().is_some());
}

#[test]
fn subscription_topics() {
    let c = Cert::new(b"c3po", CertType::Host, key("c3po"), key("c3po-s"));
    let cache = CertCache::new(Some(vec![c]));
    let all = on_subscription(&cache, &[1u8]).unwrap().unwrap();
    assert_eq!(all[0], Vec::<u8>::new());
    assert_eq!(all[2], key("c3po"));
    assert!(on_subscription(&cache, &frame(1, "user")).unwrap().is_none());
    assert_eq!(on_subscription(&cache, &frame(1, "bogus")).err(), Some(Error::InvalidCertMeta));
    assert!(on_subscription(&cache, &[]).unwrap().is_none());
    let host = on_subscription(&cache, &frame(1, "host")).unwrap().unwrap();
    assert_eq!(host, vec![b"host".to_vec(), b"ADD".to_vec(), key("c3po"), Cert::new(b"c3po", CertType::Host, key("c3po"), vec![]).encode_meta()]);
}

#[test]
fn delete_reaches_subscriber_cache() {
    let c = Cert::new(b"c3po", CertType::Host, key("c3po"), key("c3po-s"));
    let mut disk = PersistDisk::new("/srv", true).unwrap();
    disk.create(&c).unwrap();
    let cache = CertCache::new(Some(disk.dump()));
    let mut api = CertApi::new(disk, cache);

    let mut subscriber = CertCache::new(None);
    let snap = on_subscription(api.cache(), &frame(1, "host")).unwrap().unwrap();
    subscriber.recv(&snap).unwrap();
    assert!(subscriber.get(&key("c3po")).is_some());

    let peer = inauth::request_meta::RequestMeta::new(Some(b"admin".to_vec()), Some(b"user".to_vec())).unwrap();
    let deleted = api.delete(&peer, &vec![b"c3po".to_vec()], b"rid").unwrap();
    assert_eq!(deleted.publish, vec![b"host".to_vec(), b"DEL".to_vec(), key("c3po")]);
    subscriber.recv(&deleted.publish).unwrap();
    assert!(subscriber.get(&key("c3po")).is_none());
}
