//! Answers the transport's ZAP authentication requests from the certificate
//! cache, and the decisions of the worker that serves them.
use vstd::prelude::*;
use crate::bytes::{bytes_eq, frames_view, opt_view, to_vec};
use crate::cert::{meta_of, Cert};
use crate::cert_cache::CertCache;
use crate::error::Error;

verus! {

/// "1.0", the only ZAP version.
pub open spec fn zap_version() -> Seq<u8> {
    seq![49u8, 46, 48]
}

/// "CURVE", the only mechanism accepted.
pub open spec fn curve_tag() -> Seq<u8> {
    seq![67u8, 85, 82, 86, 69]
}

/// "200".
pub open spec fn status_ok() -> Seq<u8> {
    seq![50u8, 48, 48]
}

/// "OK".
pub open spec fn text_ok() -> Seq<u8> {
    seq![79u8, 75]
}

/// "400".
pub open spec fn status_denied() -> Seq<u8> {
    seq![52u8, 48, 48]
}

/// "No access".
pub open spec fn text_denied() -> Seq<u8> {
    seq![78u8, 111, 32, 97, 99, 99, 101, 115, 115]
}

/// "$TERM", the payload that stops the worker.
pub open spec fn term_tag() -> Seq<u8> {
    seq![36u8, 84, 69, 82, 77]
}

/// The ZAP reply to request `sequence`: 200/OK with `metadata` as the
/// credentials frame, or 400/"No access" with an empty one.
pub open spec fn reply_msg(sequence: Seq<u8>, ok: bool, metadata: Option<Seq<u8>>) -> Seq<Seq<u8>> {
    seq![
        zap_version(),
        sequence,
        if ok { status_ok() } else { status_denied() },
        if ok { text_ok() } else { text_denied() },
        Seq::empty(),
        match metadata {
            Some(d) => d,
            None => Seq::empty(),
        },
    ]
}

/// The answer to a request presenting `client_pk` with `mechanism`: accepted
/// with the certificate's metadata where the mechanism is CURVE and the key is
/// known, refused otherwise.
pub open spec fn zap_answer(
    cache: Map<Seq<u8>, crate::cert::CertView>,
    sequence: Seq<u8>,
    mechanism: Seq<u8>,
    client_pk: Seq<u8>,
) -> Seq<Seq<u8>> {
    if mechanism == curve_tag() && cache.contains_key(client_pk) {
        reply_msg(
            sequence,
            true,
            Some(meta_of(cache[client_pk].name, cache[client_pk].cert_type)),
        )
    } else {
        reply_msg(sequence, false, None)
    }
}

/// The outcome of a ZAP request of seven frames (version, sequence, domain,
/// address, identity, mechanism, public key in Z85 text).
pub open spec fn zap_response(
    cache: Map<Seq<u8>, crate::cert::CertView>,
    frames: Seq<Seq<u8>>,
) -> Result<Seq<Seq<u8>>, Error> {
    if frames.len() != 7 {
        Err(Error::InvalidZapRequest)
    } else if frames[0] != zap_version() {
        Err(Error::ZapVersion)
    } else if frames[6].len() != 40 {
        Err(Error::InvalidZapRequest)
    } else {
        Ok(zap_answer(cache, frames[1], frames[5], frames[6]))
    }
}

fn version_bytes() -> (r: Vec<u8>)
    ensures
        r@ == zap_version(),
{
    let r: Vec<u8> = vec![49u8, 46, 48];
    assert(r@ =~= zap_version());
    r
}

fn curve_bytes() -> (r: Vec<u8>)
    ensures
        r@ == curve_tag(),
{
    let r: Vec<u8> = vec![67u8, 85, 82, 86, 69];
    assert(r@ =~= curve_tag());
    r
}

fn term_bytes() -> (r: Vec<u8>)
    ensures
        r@ == term_tag(),
{
    let r: Vec<u8> = vec![36u8, 84, 69, 82, 77];
    assert(r@ =~= term_tag());
    r
}

/// One ZAP request that passed its structural checks.
#[derive(Debug)]
pub struct ZapRequest {
    version: Vec<u8>,
    sequence: Vec<u8>,
    domain: Vec<u8>,
    address: Vec<u8>,
    identity: Vec<u8>,
    mechanism: Vec<u8>,
    client_pk: Vec<u8>,
}

impl ZapRequest {
    pub closed spec fn sequence_view(&self) -> Seq<u8> {
        self.sequence@
    }

    pub closed spec fn mechanism_view(&self) -> Seq<u8> {
        self.mechanism@
    }

    pub closed spec fn client_pk_view(&self) -> Seq<u8> {
        self.client_pk@
    }

    /// Checks a request: a version other than "1.0" is `ZapVersion`, a public
    /// key whose Z85 text is not 40 characters long is `InvalidZapRequest`.
    pub fn new(
        version: Vec<u8>,
        sequence: Vec<u8>,
        domain: Vec<u8>,
        address: Vec<u8>,
        identity: Vec<u8>,
        mechanism: Vec<u8>,
        client_pk: Vec<u8>,
    ) -> (r: Result<ZapRequest, Error>)
        ensures
            version@ != zap_version() ==> r == Err::<ZapRequest, Error>(Error::ZapVersion),
            version@ == zap_version() && client_pk@.len() != 40 ==> r == Err::<ZapRequest, Error>(
                Error::InvalidZapRequest,
            ),
            version@ == zap_version() && client_pk@.len() == 40 ==> (r matches Ok(q) && q.sequence_view()
                == sequence@ && q.mechanism_view() == mechanism@ && q.client_pk_view() == client_pk@),
    {
        let v = version_bytes();
        if !bytes_eq(version.as_slice(), v.as_slice()) {
            return Err(Error::ZapVersion);
        }
        if client_pk.len() != 40 {
            return Err(Error::InvalidZapRequest);
        }
        Ok(ZapRequest { version, sequence, domain, address, identity, mechanism, client_pk })
    }

    /// The reply frames: accepted with `metadata` as credentials, or refused.
    pub fn zap_reply(&self, ok: bool, metadata: Option<Vec<u8>>) -> (r: Vec<Vec<u8>>)
        ensures
            frames_view(r@) == reply_msg(
                self.sequence_view(),
                ok,
                opt_view(metadata),
            ),
    {
        let mut r: Vec<Vec<u8>> = Vec::new();
        r.push(version_bytes());
        r.push(to_vec(self.sequence.as_slice()));
        if ok {
            r.push(vec![50u8, 48, 48]);
            r.push(vec![79u8, 75]);
        } else {
            r.push(vec![52u8, 48, 48]);
            r.push(vec![78u8, 111, 32, 97, 99, 99, 101, 115, 115]);
        }
        r.push(Vec::new());
        let ghost md = opt_view(metadata);
        match metadata {
            Some(d) => r.push(d),
            None => r.push(Vec::new()),
        }
        assert(frames_view(r@) =~= reply_msg(self.sequence_view(), ok, md));
        r
    }

    /// The reply to this request: accepted with the certificate's metadata
    /// where the mechanism is CURVE and the cache knows the key, refused
    /// otherwise.
    pub fn authenticate(&self, cache: &CertCache) -> (r: Vec<Vec<u8>>)
        requires
            cache.wf(),
        ensures
            frames_view(r@) == zap_answer(cache@, self.sequence_view(), self.mechanism_view(), self.client_pk_view()),
    {
        proof {
            cache.lemma_entries();
        }
        let curve = curve_bytes();
        if bytes_eq(self.mechanism.as_slice(), curve.as_slice()) {
            match cache.get(self.client_pk.as_slice()) {
                Some(c) => {
                    let meta = c.encode_meta();
                    return self.zap_reply(true, Some(meta));
                },
                None => {},
            }
        }
        self.zap_reply(false, None)
    }
}

/// Answers a ZAP request of seven frames whose last one, the client's public
/// key, is already in Z85 text form.
pub fn handle_request(cache: &CertCache, frames: &Vec<Vec<u8>>) -> (r: Result<Vec<Vec<u8>>, Error>)
    requires
        cache.wf(),
    ensures
        match zap_response(cache@, frames_view(frames@)) {
            Ok(m) => (r matches Ok(x) && frames_view(x@) == m),
            Err(e) => r == Err::<Vec<Vec<u8>>, Error>(e),
        },
{
    let ghost fv = frames_view(frames@);
    if frames.len() != 7 {
        return Err(Error::InvalidZapRequest);
    }
    assert(fv[0] == frames@[0]@ && fv[1] == frames@[1]@ && fv[5] == frames@[5]@ && fv[6] == frames@[6]@);
    let request = ZapRequest::new(
        to_vec(frames[0].as_slice()),
        to_vec(frames[1].as_slice()),
        to_vec(frames[2].as_slice()),
        to_vec(frames[3].as_slice()),
        to_vec(frames[4].as_slice()),
        to_vec(frames[5].as_slice()),
        to_vec(frames[6].as_slice()),
    )?;
    Ok(request.authenticate(cache))
}

/// The refusal sent back for a request that could not be handled, so that
/// the requester is not left waiting: 400/"No access" for the request's
/// sequence frame, empty where the request has none.
pub fn refusal(frames: &Vec<Vec<u8>>) -> (r: Vec<Vec<u8>>)
    ensures
        frames_view(r@) == reply_msg(
            if frames@.len() > 1 { frames@[1]@ } else { Seq::empty() },
            false,
            None,
        ),
{
    let mut r: Vec<Vec<u8>> = Vec::new();
    r.push(version_bytes());
    if frames.len() > 1 {
        r.push(to_vec(frames[1].as_slice()));
    } else {
        r.push(Vec::new());
    }
    r.push(vec![52u8, 48, 48]);
    r.push(vec![78u8, 111, 32, 97, 99, 99, 101, 115, 115]);
    r.push(Vec::new());
    r.push(Vec::new());
    let ghost sq = if frames@.len() > 1 { frames@[1]@ } else { Seq::<u8>::empty() };
    assert(frames_view(r@) =~= reply_msg(sq, false, None));
    r
}

/// A cache seeded for a process that trusts itself: it holds the process's
/// own certificate where `allow_self` is set, and is empty otherwise.
pub fn self_trust_cache(own: &Cert, allow_self: bool) -> (r: CertCache)
    requires
        own@.fits(),
    ensures
        r.wf(),
        r@ == if allow_self {
            Map::<Seq<u8>, crate::cert::CertView>::empty().insert(own@.public, own@)
        } else {
            Map::<Seq<u8>, crate::cert::CertView>::empty()
        },
{
    let mut cache = CertCache::empty();
    if allow_self {
        cache.insert(own.duplicate());
    }
    cache
}

/// What woke the ZAP worker up.
pub enum WorkerEvent {
    /// A ZAP request, its public key frame already in Z85 text.
    Zap(Vec<Vec<u8>>),
    /// An update event from the auth server's feed.
    Update(Vec<Vec<u8>>),
    /// A message on the control pipe.
    Comm(Vec<u8>),
}

/// What the ZAP worker does next.
pub enum WorkerAction {
    /// Send these frames back on the ZAP socket.
    Reply(Vec<Vec<u8>>),
    /// Wait for the next event.
    Continue,
    /// Leave the loop.
    Stop,
}

/// The state of the worker thread that serves ZAP requests: its own cache,
/// kept fresh from the update feed.
pub struct Worker {
    pub cache: CertCache,
}

impl Worker {
    pub fn new(cache: CertCache) -> (r: Worker)
        ensures
            r.cache == cache,
    {
        Worker { cache }
    }

    /// Handles one event: a ZAP request is answered from the cache, an
    /// update event is applied to it, "$TERM" on the control pipe stops the
    /// worker and anything else on it is ignored.
    pub fn step(&mut self, event: WorkerEvent) -> (r: Result<WorkerAction, Error>)
        requires
            old(self).cache.wf(),
        ensures
            final(self).cache.wf(),
            match event {
                WorkerEvent::Zap(frames) => final(self).cache@ == old(self).cache@ && (match zap_response(
                    old(self).cache@,
                    frames_view(frames@),
                ) {
                    Ok(m) => (r matches Ok(WorkerAction::Reply(x)) && frames_view(x@) == m),
                    Err(e) => r == Err::<WorkerAction, Error>(e),
                }),
                WorkerEvent::Update(frames) => match crate::cert_cache::apply_event(
                    old(self).cache@,
                    frames_view(frames@),
                ) {
                    Some(m) => (r matches Ok(WorkerAction::Continue)) && final(self).cache@ == m,
                    None => r == Err::<WorkerAction, Error>(Error::InvalidCertFeed) && final(self).cache@
                        == old(self).cache@,
                },
                WorkerEvent::Comm(p) => final(self).cache@ == old(self).cache@ && (if p@ == term_tag() {
                    r matches Ok(WorkerAction::Stop)
                } else {
                    r matches Ok(WorkerAction::Continue)
                }),
            },
    {
        match event {
            WorkerEvent::Zap(frames) => {
                let reply = handle_request(&self.cache, &frames)?;
                Ok(WorkerAction::Reply(reply))
            },
            WorkerEvent::Update(frames) => {
                self.cache.recv(&frames)?;
                Ok(WorkerAction::Continue)
            },
            WorkerEvent::Comm(p) => {
                let term = term_bytes();
                if bytes_eq(p.as_slice(), term.as_slice()) {
                    Ok(WorkerAction::Stop)
                } else {
                    Ok(WorkerAction::Continue)
                }
            },
        }
    }
}

} // verus!

verus! {

/// A well-formed CURVE request presenting a public key that the cache holds
/// is accepted, with that certificate's metadata as credentials.
pub proof fn lemma_known_key_accepted(cache: Map<Seq<u8>, crate::cert::CertView>, frames: Seq<Seq<u8>>)
    requires
        frames.len() == 7,
        frames[0] == zap_version(),
        frames[5] == curve_tag(),
        frames[6].len() == 40,
        cache.contains_key(frames[6]),
    ensures
        zap_response(cache, frames) == Ok::<Seq<Seq<u8>>, Error>(
            reply_msg(
                frames[1],
                true,
                Some(meta_of(cache[frames[6]].name, cache[frames[6]].cert_type)),
            ),
        ),
{
}

} // verus!
