use inauth::cert::{Cert, CertType};
use inauth::cert_cache::CertCache;
use inauth::error::Error;

fn key(tag: &str) -> Vec<u8> {
    let mut k = tag.as_bytes().to_vec();
    while k.len() < 40 {
        k.push(b'x');
    }
    k
}

fn create_cache() -> (CertCache, Vec<u8>) {
    let cert = Cert::new(b"peetar!", CertType::User, key("peetar"), key("peetar-secret"));
    let pubkey = cert.public_txt().to_vec();
    (CertCache::new(Some(vec![cert])), pubkey)
}

#[test]
fn test_get() {
    let (cache, pubkey) = create_cache();
    assert!(cache.get(b"nonexistent").is_none());
    assert_eq!(cache.get(&pubkey).unwrap().public_txt(), pubkey.as_slice());
}

#[test]
fn test_get_name() {
    let (cache, _) = create_cache();
    assert!(cache.get_name(b"nonexistent").is_none());
    assert_eq!(cache.get_name(b"peetar!").unwrap().name(), b"peetar!");
}

#[test]
fn test_send() {
    let (cache, pubkey) = create_cache();
    assert!(cache.send(Some(CertType::Host)).is_none());

    let msg = cache.send(Some(CertType::User)).unwrap();
    assert_eq!(msg.len(), 4);
    assert_eq!(msg[0], b"user".to_vec());
    assert_eq!(msg[1], b"ADD".to_vec());
    assert_eq!(msg[2], pubkey);
    let c = Cert::from_zcert(&msg[2], &msg[3]).unwrap();
    assert_eq!(c.name(), b"peetar!");
    assert_eq!(c.cert_type(), CertType::User);
}

#[test]
fn test_recv() {
    let mut cache = CertCache::new(None);
    let c1 = Cert::new(b"dan", CertType::User, key("dan"), key("dan-s"));
    let c2 = Cert::new(b"web1.example.com", CertType::Host, key("web1"), key("web1-s"));

    assert!(cache.recv(&vec![]).is_err());

    let msg = vec![
        b"topic".to_vec(),
        b"ADD".to_vec(),
        c1.public_txt().to_vec(),
        c1.encode_meta(),
        c2.public_txt().to_vec(),
        c2.encode_meta(),
    ];
    assert!(cache.recv(&msg).is_ok());
    assert!(cache.get(c1.public_txt()).is_some());
    assert!(cache.get(c2.public_txt()).is_some());

    let msg = vec![b"topic".to_vec(), b"DEL".to_vec(), c1.public_txt().to_vec()];
    assert!(cache.recv(&msg).is_ok());
    assert!(cache.get(c1.public_txt()).is_none());
    assert!(cache.get(c2.public_txt()).is_some());
}

#[test]
fn recv_rejects_malformed_events() {
    let (mut cache, pubkey) = create_cache();
    let c = Cert::new(b"x", CertType::Host, key("x"), key("x-s"));
    assert_eq!(cache.recv(&vec![b"host".to_vec()]), Err(Error::InvalidCertFeed));
    assert_eq!(cache.recv(&vec![b"host".to_vec(), b"PUT".to_vec()]), Err(Error::InvalidCertFeed));
    assert_eq!(cache.recv(&vec![b"host".to_vec(), b"DEL".to_vec()]), Err(Error::InvalidCertFeed));
    let bad = vec![
        b"host".to_vec(),
        b"ADD".to_vec(),
        c.public_txt().to_vec(),
        c.encode_meta(),
        key("y"),
        vec![1, 2, 3],
    ];
    assert_eq!(cache.recv(&bad), Err(Error::InvalidCertFeed));
    // A failed event changes nothing, not even its well-formed part.
    assert!(cache.get(c.public_txt()).is_none());
    assert!(cache.get(&pubkey).is_some());
    // A trailing key without its metadata frame cannot be interpreted.
    let odd = vec![b"host".to_vec(), b"ADD".to_vec(), c.public_txt().to_vec(), c.encode_meta(), key("z")];
    assert_eq!(cache.recv(&odd), Err(Error::InvalidCertFeed));
    assert!(cache.get(c.public_txt()).is_none());
    let even = vec![b"host".to_vec(), b"ADD".to_vec(), c.public_txt().to_vec(), c.encode_meta()];
    assert_eq!(cache.recv(&even), Ok(()));
    assert!(cache.get(c.public_txt()).is_some());
}

#[test]
fn add_replaces_same_key() {
    let (mut cache, pubkey) = create_cache();
    let renamed = Cert::new(b"peter", CertType::Host, pubkey.clone(), key("s"));
    let msg = vec![b"host".to_vec(), b"ADD".to_vec(), pubkey.clone(), renamed.encode_meta()];
    cache.recv(&msg).unwrap();
    assert_eq!(cache.get(&pubkey).unwrap().name(), b"peter");
    assert_eq!(cache.dump(CertType::User).len(), 0);
    assert_eq!(cache.dump(CertType::Host).len(), 1);
}

#[test]
fn snapshot_rebuilds_filtered_cache() {
    let a = Cert::new(b"a", CertType::User, key("a"), key("a-s"));
    let b = Cert::new(b"b", CertType::Host, key("b"), key("b-s"));
    let c = Cert::new(b"c", CertType::User, key("c"), key("c-s"));
    let cache = CertCache::new(Some(vec![a, b, c]));

    let snap = cache.send(Some(CertType::User)).unwrap();
    let mut fresh = CertCache::new(None);
    fresh.recv(&snap).unwrap();
    assert!(fresh.get(&key("a")).is_some());
    assert!(fresh.get(&key("c")).is_some());
    assert!(fresh.get(&key("b")).is_none());
    assert_eq!(fresh.get(&key("a")).unwrap().secret_txt(), None);

    let all = cache.send(None).unwrap();
    assert_eq!(all[0], Vec::<u8>::new());
    assert_eq!(all.len(), 2 + 2 * 3);
    let mut fresh = CertCache::new(None);
    fresh.recv(&all).unwrap();
    assert_eq!(fresh.get(&key("b")).unwrap().name(), b"b");
}

#[test]
fn snapshot_carries_no_secret_key() {
    let a = Cert::new(b"a", CertType::User, key("a"), key("a-secret"));
    let cache = CertCache::new(Some(vec![a]));
    let snap = cache.send(None).unwrap();
    for frame in &snap {
        assert_ne!(frame, &key("a-secret"));
        assert!(!frame.windows(8).any(|w| w == b"a-secret"));
    }
}

#[test]
fn empty_cache_sends_nothing() {
    let cache = CertCache::new(None);
    assert!(cache.send(None).is_none());
    assert!(cache.send(Some(CertType::User)).is_none());
}
