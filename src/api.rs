//! The administrative endpoints: list, lookup, create and delete
//! certificates. Each takes the request's argument frames and the routing id
//! of the peer, and gives the reply to route back; create and delete also give
//! the event to publish on the update feed and the store file to write or
//! remove.
use vstd::prelude::*;
use crate::bytes::{frames_view, to_vec};
use crate::cert::{meta_of, parse_type, Cert, CertType, CertView};
use crate::cert_cache::{add_tag, coherent, del_tag, enumerates, lemma_select_complete, select, CertCache};
use crate::error::Error;
use crate::msg::ok_tag;
use crate::request_meta::RequestMeta;
use crate::storage::{has_name, names_unique, path_of, PersistDisk};

verus! {

/// The names of the certificates of `s`, in order.
pub open spec fn names(s: Seq<CertView>) -> Seq<Seq<u8>> {
    s.map_values(|c: CertView| c.name)
}

/// Whether `k` is a public key that a lookup of `name` may answer with: a
/// certificate of that name in `m` has it.
pub open spec fn lookup_answers(m: Map<Seq<u8>, CertView>, name: Seq<u8>, k: Seq<u8>) -> bool {
    m.contains_key(k) && m[k].name == name
}

/// The persisted certificates and the cache, both by public key.
pub struct ApiView {
    pub store: Map<Seq<u8>, CertView>,
    pub cache: Map<Seq<u8>, CertView>,
}

/// What a successful create hands back.
pub struct Created {
    /// The new certificate, with its secret key.
    pub cert: Cert,
    /// The store file its public half is to be saved in.
    pub path: Vec<u8>,
    /// The ADD event for the update feed.
    pub publish: Vec<Vec<u8>>,
    /// The reply to the peer.
    pub reply: Vec<Vec<u8>>,
}

/// What a successful delete hands back.
pub struct Deleted {
    /// The store file to remove.
    pub path: Vec<u8>,
    /// The DEL event for the update feed.
    pub publish: Vec<Vec<u8>>,
    /// The reply to the peer.
    pub reply: Vec<Vec<u8>>,
}

fn ok_bytes() -> (r: Vec<u8>)
    ensures
        r@ == ok_tag(),
{
    let r: Vec<u8> = vec![79u8, 107];
    assert(r@ =~= ok_tag());
    r
}

/// The certificate API over the store and the cache.
pub struct CertApi {
    persistence: PersistDisk,
    cert_cache: CertCache,
}

impl View for CertApi {
    type V = ApiView;

    closed spec fn view(&self) -> ApiView {
        ApiView { store: self.persistence@, cache: self.cert_cache@ }
    }
}

impl CertApi {
    pub closed spec fn wf(&self) -> bool {
        self.persistence.wf() && self.cert_cache.wf()
    }

    /// The store's directory.
    pub closed spec fn dir(&self) -> Seq<u8> {
        self.persistence.dir()
    }

    /// The cache entries in the order in which the cache walks them.
    pub closed spec fn cache_entries(&self) -> Seq<CertView> {
        self.cert_cache.entries()
    }

    /// What a well-formed API guarantees: names are unique in the store, and
    /// the cache's walk lists each cached certificate once.
    pub proof fn lemma_wf(&self)
        requires
            self.wf(),
        ensures
            names_unique(self@.store),
            coherent(self@.store),
            coherent(self@.cache),
            enumerates(self@.cache, self.cache_entries()),
    {
        self.persistence.lemma_wf();
        self.cert_cache.lemma_entries();
    }

    pub fn new(persistence: PersistDisk, cert_cache: CertCache) -> (r: CertApi)
        requires
            persistence.wf(),
            cert_cache.wf(),
        ensures
            r.wf(),
            r@ == (ApiView { store: persistence@, cache: cert_cache@ }),
            r.dir() == persistence.dir(),
            r.cache_entries() == cert_cache.entries(),
    {
        CertApi { persistence, cert_cache }
    }

    /// The cache, for the proxy to send snapshots from.
    pub fn cache(&self) -> (r: &CertCache)
        requires
            self.wf(),
        ensures
            r.wf(),
            r@ == self@.cache,
            r.entries() == self.cache_entries(),
    {
        &self.cert_cache
    }

    /// Applies an update event received from a peer server to the cache.
    pub fn apply_feed(&mut self, msg: &Vec<Vec<u8>>) -> (r: Result<(), Error>)
        requires
            old(self).wf(),
        ensures
            final(self).wf(),
            final(self)@.store == old(self)@.store,
            final(self).dir() == old(self).dir(),
            match crate::cert_cache::apply_event(old(self)@.cache, frames_view(msg@)) {
                Some(m) => r is Ok && final(self)@.cache == m,
                None => r == Err::<(), Error>(Error::InvalidCertFeed) && final(self)@.cache == old(self)@.cache,
            },
    {
        self.cert_cache.recv(msg)
    }

    /// cert::list: the names of the cached certificates of the requested
    /// type, peers' certificates included. One argument frame, the type tag.
    pub fn list(&self, args: &Vec<Vec<u8>>, router_id: &[u8]) -> (r: Result<Vec<Vec<u8>>, Error>)
        requires
            self.wf(),
        ensures
            args@.len() != 1 ==> r == Err::<Vec<Vec<u8>>, Error>(Error::InvalidArgsCount),
            args@.len() == 1 ==> match parse_type(args@[0]@) {
                None => r == Err::<Vec<Vec<u8>>, Error>(Error::InvalidCertMeta),
                Some(t) => (r matches Ok(m) && frames_view(m@) == seq![router_id@, ok_tag()] + names(
                    select(self.cache_entries(), Some(t)),
                )),
            },
    {
        if args.len() != 1 {
            return Err(Error::InvalidArgsCount);
        }
        let t = CertType::from_bytes(args[0].as_slice())?;
        let certs = self.cert_cache.dump(t);
        let mut r: Vec<Vec<u8>> = Vec::new();
        r.push(to_vec(router_id));
        r.push(ok_bytes());
        let ghost sel = select(self.cache_entries(), Some(t));
        let mut i: usize = 0;
        while i < certs.len()
            invariant
                certs@.map_values(|c: &Cert| c@) == sel,
                i <= certs@.len(),
                frames_view(r@) == seq![router_id@, ok_tag()] + names(sel.subrange(0, i as int)),
            decreases certs@.len() - i,
        {
            assert(sel[i as int] == certs@[i as int]@);
            let ghost before = frames_view(r@);
            let nm = to_vec(certs[i].name());
            assert(nm@ == sel[i as int].name);
            r.push(nm);
            assert(frames_view(r@) =~= before.push(sel[i as int].name));
            assert(names(sel.subrange(0, i + 1)) =~= names(sel.subrange(0, i as int)).push(sel[i as int].name));
            i = i + 1;
            assert(frames_view(r@) =~= seq![router_id@, ok_tag()] + names(sel.subrange(0, i as int)));
        }
        assert(sel.subrange(0, i as int) =~= sel);
        Ok(r)
    }

    /// cert::lookup: the public key of a cached certificate of the requested
    /// name. One argument frame, the name; a name that no cached certificate
    /// carries is `InvalidCert`.
    pub fn lookup(&self, args: &Vec<Vec<u8>>, router_id: &[u8]) -> (r: Result<Vec<Vec<u8>>, Error>)
        requires
            self.wf(),
        ensures
            args@.len() != 1 ==> r == Err::<Vec<Vec<u8>>, Error>(Error::InvalidArgsCount),
            args@.len() == 1 && !has_name(self@.cache, args@[0]@) ==> r == Err::<Vec<Vec<u8>>, Error>(
                Error::InvalidCert,
            ),
            args@.len() == 1 && has_name(self@.cache, args@[0]@) ==> (r matches Ok(m) && exists|k: Seq<u8>|
                #[trigger] lookup_answers(self@.cache, args@[0]@, k) && frames_view(m@) == seq![router_id@, ok_tag(), k]),
    {
        if args.len() != 1 {
            return Err(Error::InvalidArgsCount);
        }
        match self.cert_cache.get_name(args[0].as_slice()) {
            Some(c) => {
                let mut r: Vec<Vec<u8>> = Vec::new();
                r.push(to_vec(router_id));
                r.push(ok_bytes());
                r.push(to_vec(c.public_txt()));
                assert(frames_view(r@) =~= seq![router_id@, ok_tag(), c@.public]);
                assert(lookup_answers(self@.cache, args@[0]@, c@.public));
                Ok(r)
            },
            None => Err(Error::InvalidCert),
        }
    }

    /// cert::create: only a user may create. Two argument frames, the type
    /// tag and the name; the key pair, freshly generated, is given in text
    /// form. The certificate is stored and cached without its secret key, the
    /// ADD event carries its public key and metadata, and the reply carries
    /// both keys and the metadata.
    pub fn create(
        &mut self,
        peer: &RequestMeta,
        args: &Vec<Vec<u8>>,
        public_txt: Vec<u8>,
        secret_txt: Vec<u8>,
        router_id: &[u8],
    ) -> (r: Result<Created, Error>)
        requires
            old(self).wf(),
        ensures
            final(self).wf(),
            final(self).dir() == old(self).dir(),
            r is Err ==> final(self)@ == old(self)@,
            peer.cert_type != CertType::User ==> r == Err::<Created, Error>(Error::Forbidden),
            peer.cert_type == CertType::User && args@.len() != 2 ==> r == Err::<Created, Error>(
                Error::InvalidArgsCount,
            ),
            peer.cert_type == CertType::User && args@.len() == 2 ==> match parse_type(args@[0]@) {
                None => r == Err::<Created, Error>(Error::InvalidCertMeta),
                Some(t) => {
                    let name = args@[1]@;
                    let c = CertView { public: public_txt@, secret: Some(secret_txt@), name, cert_type: t };
                    if name.len() >= 4294967296 {
                        r == Err::<Created, Error>(Error::InvalidArg)
                    } else if has_name(old(self)@.store, name) {
                        r == Err::<Created, Error>(Error::CertNameCollision)
                    } else {
                        r matches Ok(x) && x.cert@ == c && x.path@ == path_of(old(self).dir(), name)
                            && frames_view(x.publish@) == seq![t.tag(), add_tag(), public_txt@, meta_of(name, t)]
                            && frames_view(x.reply@) == seq![router_id@, ok_tag(), public_txt@, secret_txt@, meta_of(name, t)]
                            && final(self)@.store == old(self)@.store.insert(public_txt@, c.public_only())
                            && final(self)@.cache == old(self)@.cache.insert(public_txt@, c.public_only())
                    }
                },
            },
    {
        if peer.cert_type != CertType::User {
            return Err(Error::Forbidden);
        }
        if args.len() != 2 {
            return Err(Error::InvalidArgsCount);
        }
        let t = CertType::from_bytes(args[0].as_slice())?;
        if args[1].len() as u64 >= 4294967296u64 {
            return Err(Error::InvalidArg);
        }
        let cert = Cert::new(args[1].as_slice(), t, public_txt, secret_txt);
        let path = self.persistence.create(&cert)?;
        self.cert_cache.insert(cert.public_only());
        let meta = cert.encode_meta();
        let mut publish: Vec<Vec<u8>> = Vec::new();
        publish.push(t.to_bytes());
        publish.push(crate::cert_cache::add_bytes());
        publish.push(to_vec(cert.public_txt()));
        publish.push(to_vec(meta.as_slice()));
        let mut reply: Vec<Vec<u8>> = Vec::new();
        reply.push(to_vec(router_id));
        reply.push(ok_bytes());
        reply.push(to_vec(cert.public_txt()));
        match cert.secret_txt() {
            Some(s) => reply.push(to_vec(s)),
            None => reply.push(Vec::new()),
        }
        reply.push(meta);
        let ghost name = args@[1]@;
        assert(frames_view(publish@) =~= seq![t.tag(), add_tag(), public_txt@, meta_of(name, t)]);
        assert(frames_view(reply@) =~= seq![router_id@, ok_tag(), public_txt@, secret_txt@, meta_of(name, t)]);
        Ok(Created { cert, path, publish, reply })
    }

    /// cert::delete: only a user may delete. One argument frame, the name;
    /// an unknown name is `InvalidCert`. The certificate leaves the store and
    /// the cache, and the DEL event carries its type and public key.
    pub fn delete(&mut self, peer: &RequestMeta, args: &Vec<Vec<u8>>, router_id: &[u8]) -> (r: Result<Deleted, Error>)
        requires
            old(self).wf(),
        ensures
            final(self).wf(),
            final(self).dir() == old(self).dir(),
            r is Err ==> final(self)@ == old(self)@,
            peer.cert_type != CertType::User ==> r == Err::<Deleted, Error>(Error::Forbidden),
            peer.cert_type == CertType::User && args@.len() != 1 ==> r == Err::<Deleted, Error>(
                Error::InvalidArgsCount,
            ),
            peer.cert_type == CertType::User && args@.len() == 1 && !has_name(old(self)@.store, args@[0]@)
                ==> r == Err::<Deleted, Error>(Error::InvalidCert),
            peer.cert_type == CertType::User && args@.len() == 1 && has_name(old(self)@.store, args@[0]@)
                ==> (r matches Ok(x) && x.path@ == path_of(old(self).dir(), args@[0]@) && frames_view(x.reply@)
                == seq![router_id@, ok_tag()] && forall|k: Seq<u8>|
                #[trigger] lookup_answers(old(self)@.store, args@[0]@, k)
                    ==> frames_view(x.publish@) == seq![old(self)@.store[k].cert_type.tag(), del_tag(), k]
                    && final(self)@.store == old(self)@.store.remove(k)
                    && final(self)@.cache == old(self)@.cache.remove(k)),
    {
        if peer.cert_type != CertType::User {
            return Err(Error::Forbidden);
        }
        if args.len() != 1 {
            return Err(Error::InvalidArgsCount);
        }
        let (pk, t) = match self.persistence.read(args[0].as_slice()) {
            Ok(c) => (to_vec(c.public_txt()), c.cert_type()),
            Err(e) => return Err(e),
        };
        proof {
            self.persistence.lemma_wf();
        }
        let ghost pk_v = pk@;
        let path = self.persistence.delete(args[0].as_slice())?;
        self.cert_cache.remove(pk.as_slice());
        let mut publish: Vec<Vec<u8>> = Vec::new();
        publish.push(t.to_bytes());
        publish.push(crate::cert_cache::del_bytes());
        publish.push(to_vec(pk.as_slice()));
        let mut reply: Vec<Vec<u8>> = Vec::new();
        reply.push(to_vec(router_id));
        reply.push(ok_bytes());
        assert(frames_view(publish@) =~= seq![t.tag(), del_tag(), pk@]);
        assert(frames_view(reply@) =~= seq![router_id@, ok_tag()]);
        Ok(Deleted { path, publish, reply })
    }
}

} // verus!


verus! {

/// Every cached certificate is found: the list of its type names it, and a
/// lookup of its name succeeds, answering with its public key whenever no
/// other cached certificate carries the same name. A create puts the new
/// certificate in the cache and only its own delete takes it out again
/// (`lemma_others_untouched`), so this holds for every certificate created
/// and not deleted since.
pub proof fn lemma_cached_is_visible(cache: Map<Seq<u8>, CertView>, entries: Seq<CertView>, k: Seq<u8>)
    requires
        enumerates(cache, entries),
        cache.contains_key(k),
    ensures
        has_name(cache, cache[k].name),
        names(select(entries, Some(cache[k].cert_type))).contains(cache[k].name),
        (forall|j: Seq<u8>| #[trigger] cache.contains_key(j) && cache[j].name == cache[k].name ==> j == k)
            ==> forall|j: Seq<u8>| lookup_answers(cache, cache[k].name, j) <==> j == k,
{
    let name = cache[k].name;
    let t = cache[k].cert_type;
    assert(lookup_answers(cache, name, k));
    let i = choose|i: int| 0 <= i < entries.len() && (#[trigger] entries[i]).public == k;
    assert(entries[i] == cache[k]);
    lemma_select_complete(entries, Some(t));
    let sel = select(entries, Some(t));
    let j = choose|j: int| 0 <= j < sel.len() && sel[j] == entries[i];
    assert(names(sel)[j] == name);
}

/// After a successful create, a lookup of the new name answers with the new
/// public key and no other, provided no certificate of that name was cached
/// before (one mirrored from a peer server could answer too).
pub proof fn lemma_create_then_lookup(before: Map<Seq<u8>, CertView>, after: Map<Seq<u8>, CertView>, c: CertView)
    requires
        !has_name(before, c.name),
        after == before.insert(c.public, c.public_only()),
    ensures
        has_name(after, c.name),
        forall|j: Seq<u8>| lookup_answers(after, c.name, j) <==> j == c.public,
{
    assert(lookup_answers(after, c.name, c.public));
    assert forall|j: Seq<u8>| lookup_answers(after, c.name, j) implies j == c.public by {
        if j != c.public {
            assert(before.contains_key(j) && before[j].name == c.name);
        }
    }
}

/// A create or a delete of another certificate leaves a stored or cached
/// certificate in place: what was created stays until it is itself deleted.
pub proof fn lemma_others_untouched(before: Map<Seq<u8>, CertView>, k: Seq<u8>, other: Seq<u8>, c: CertView)
    requires
        before.contains_key(k),
        other != k,
        c.public != k,
    ensures
        before.insert(c.public, c.public_only()).contains_key(k),
        before.insert(c.public, c.public_only())[k] == before[k],
        before.remove(other).contains_key(k),
        before.remove(other)[k] == before[k],
{
}

} // verus!
