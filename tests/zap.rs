use inauth::cert::{Cert, CertType};
use inauth::cert_cache::CertCache;
use inauth::error::Error;
use inauth::zap::{handle_request, refusal, self_trust_cache, Worker, WorkerAction, WorkerEvent, ZapRequest};

fn key(tag: &str) -> Vec<u8> {
    let mut k = tag.as_bytes().to_vec();
    while k.len() < 40 {
        k.push(b'x');
    }
    k
}

fn new_zap_msg(pubkey: &[u8]) -> Vec<Vec<u8>> {
    vec![
        b"1.0".to_vec(),
        b"1".to_vec(),
        b"test-domain".to_vec(),
        b"127.0.0.1".to_vec(),
        b"".to_vec(),
        b"CURVE".to_vec(),
        pubkey.to_vec(),
    ]
}

#[test]
fn test_auth() {
    let cert = Cert::new(b"jimbob", CertType::User, key("jimbob"), key("jimbob-s"));
    let mut worker = Worker::new(CertCache::new(None));

    let reply = match worker.step(WorkerEvent::Zap(new_zap_msg(cert.public_txt()))).unwrap() {
        WorkerAction::Reply(r) => r,
        _ => panic!("expected a reply"),
    };
    assert_eq!(reply[2], b"400".to_vec());
    assert_eq!(reply[3], b"No access".to_vec());

    let publish = vec![b"user".to_vec(), b"ADD".to_vec(), cert.public_txt().to_vec(), cert.encode_meta()];
    assert!(matches!(worker.step(WorkerEvent::Update(publish)), Ok(WorkerAction::Continue)));

    let reply = match worker.step(WorkerEvent::Zap(new_zap_msg(cert.public_txt()))).unwrap() {
        WorkerAction::Reply(r) => r,
        _ => panic!("expected a reply"),
    };
    assert_eq!(reply[2], b"200".to_vec());
    assert_eq!(reply[3], b"OK".to_vec());
    assert_eq!(reply[5], cert.encode_meta());
}

#[test]
fn worker_stops_on_term() {
    let mut worker = Worker::new(CertCache::new(None));
    assert!(matches!(worker.step(WorkerEvent::Comm(b"hello".to_vec())), Ok(WorkerAction::Continue)));
    assert!(matches!(worker.step(WorkerEvent::Comm(b"$TERM".to_vec())), Ok(WorkerAction::Stop)));
    assert_eq!(
        worker.step(WorkerEvent::Update(vec![b"user".to_vec()])).err(),
        Some(Error::InvalidCertFeed)
    );
}

#[test]
fn self_trust_answers_own_key() {
    let own = Cert::new(b"auth", CertType::Host, key("own"), key("own-s"));
    let cache = self_trust_cache(&own, true);
    let reply = handle_request(&cache, &new_zap_msg(&key("own"))).unwrap();
    assert_eq!(
        reply,
        vec![b"1.0".to_vec(), b"1".to_vec(), b"200".to_vec(), b"OK".to_vec(), b"".to_vec(), own.encode_meta()]
    );
    let cache = self_trust_cache(&own, false);
    let reply = handle_request(&cache, &new_zap_msg(&key("own"))).unwrap();
    assert_eq!(reply[2], b"400".to_vec());
    assert_eq!(reply[5], b"".to_vec());
}

#[test]
fn zap_version_must_be_one_zero() {
    let cache = CertCache::new(None);
    let mut msg = new_zap_msg(&key("k"));
    msg[0] = b"2.0".to_vec();
    assert_eq!(handle_request(&cache, &msg).err(), Some(Error::ZapVersion));
    assert_eq!(
        ZapRequest::new(b"1.1".to_vec(), vec![], vec![], vec![], vec![], vec![], key("k")).err().unwrap(),
        Error::ZapVersion
    );
}

#[test]
fn zap_key_must_be_forty_chars() {
    let cache = CertCache::new(None);
    let msg = new_zap_msg(b"short");
    assert_eq!(handle_request(&cache, &msg).err(), Some(Error::InvalidZapRequest));
    let mut long = key("k");
    long.push(b'y');
    assert_eq!(handle_request(&cache, &new_zap_msg(&long)).err(), Some(Error::InvalidZapRequest));
    let mut six = new_zap_msg(&key("k"));
    six.pop();
    assert_eq!(handle_request(&cache, &six).err(), Some(Error::InvalidZapRequest));
}

#[test]
fn known_key_needs_curve() {
    let cert = Cert::new(b"n", CertType::Host, key("n"), key("n-s"));
    let cache = CertCache::new(Some(vec![cert]));
    let mut msg = new_zap_msg(&key("n"));
    msg[1] = b"77".to_vec();
    let reply = handle_request(&cache, &msg).unwrap();
    assert_eq!(reply[1], b"77".to_vec());
    assert_eq!(reply[2], b"200".to_vec());
    msg[5] = b"PLAIN".to_vec();
    let reply = handle_request(&cache, &msg).unwrap();
    assert_eq!(reply[2], b"400".to_vec());
    assert_eq!(reply[3], b"No access".to_vec());
}

#[test]
fn refusal_keeps_sequence() {
    let mut msg = new_zap_msg(b"short");
    msg[1] = b"9".to_vec();
    assert_eq!(
        refusal(&msg),
        vec![b"1.0".to_vec(), b"9".to_vec(), b"400".to_vec(), b"No access".to_vec(), b"".to_vec(), b"".to_vec()]
    );
    assert_eq!(refusal(&vec![])[1], Vec::<u8>::new());
}
