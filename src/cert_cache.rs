//! The in-memory index of known certificates, keyed by public key.
use vstd::prelude::*;
use crate::bytes::{bytes_eq, frames_view, to_vec};
use crate::cert::{decode_cert, meta_of, Cert, CertType, CertView};
use crate::error::Error;

verus! {

/// Whether a certificate passes a topic filter: every certificate passes no
/// filter, otherwise its type must be the one named.
pub open spec fn matches_topic(topic: Option<CertType>, c: CertView) -> bool {
    match topic {
        Some(t) => c.cert_type == t,
        None => true,
    }
}

/// The certificates of `s` that pass the filter, in order.
pub open spec fn select(s: Seq<CertView>, topic: Option<CertType>) -> Seq<CertView>
    decreases s.len(),
{
    if s.len() == 0 {
        Seq::empty()
    } else if matches_topic(topic, s.last()) {
        select(s.drop_last(), topic).push(s.last())
    } else {
        select(s.drop_last(), topic)
    }
}

/// `m` after inserting each certificate of `s` in turn, keyed by public key.
pub open spec fn insert_all(m: Map<Seq<u8>, CertView>, s: Seq<CertView>) -> Map<Seq<u8>, CertView>
    decreases s.len(),
{
    if s.len() == 0 {
        m
    } else {
        insert_all(m, s.drop_last()).insert(s.last().public, s.last())
    }
}

/// The frame topic of a filter: the type's tag, or empty for no filter.
pub open spec fn topic_tag(topic: Option<CertType>) -> Seq<u8> {
    match topic {
        Some(t) => t.tag(),
        None => Seq::empty(),
    }
}

/// The action frame "ADD".
pub open spec fn add_tag() -> Seq<u8> {
    seq![65u8, 68, 68]
}

/// The action frame "DEL".
pub open spec fn del_tag() -> Seq<u8> {
    seq![68u8, 69, 76]
}

/// The (public key, encoded metadata) frame pairs that carry `s`.
pub open spec fn cert_pairs(s: Seq<CertView>) -> Seq<Seq<u8>>
    decreases s.len(),
{
    if s.len() == 0 {
        Seq::empty()
    } else {
        cert_pairs(s.drop_last()) + seq![s.last().public, meta_of(s.last().name, s.last().cert_type)]
    }
}

/// An ADD event for topic `topic` that carries the certificates of `s`.
pub open spec fn add_msg(topic: Option<CertType>, s: Seq<CertView>) -> Seq<Seq<u8>> {
    seq![topic_tag(topic), add_tag()] + cert_pairs(s)
}

/// The certificates that ADD frame pairs carry, in order. `None` where a
/// pair does not decode or a last public key lacks its metadata frame.
pub open spec fn decode_pairs(p: Seq<Seq<u8>>) -> Option<Seq<CertView>>
    decreases p.len(),
{
    if p.len() == 0 {
        Some(Seq::empty())
    } else if p.len() == 1 {
        None
    } else {
        match decode_cert(p[0], p[1]) {
            Some(c) => match decode_pairs(p.subrange(2, p.len() as int)) {
                Some(l) => Some(seq![c] + l),
                None => None,
            },
            None => None,
        }
    }
}

/// The cache after an update event: ADD inserts or replaces every carried
/// certificate, DEL removes the public key it names. `None` where the event
/// cannot be interpreted.
pub open spec fn apply_event(m: Map<Seq<u8>, CertView>, msg: Seq<Seq<u8>>) -> Option<Map<Seq<u8>, CertView>> {
    if msg.len() < 2 {
        None
    } else if msg[1] == add_tag() {
        match decode_pairs(msg.subrange(2, msg.len() as int)) {
            Some(cs) => Some(insert_all(m, cs)),
            None => None,
        }
    } else if msg[1] == del_tag() {
        if msg.len() < 3 {
            None
        } else {
            Some(m.remove(msg[2]))
        }
    } else {
        None
    }
}

/// Each entry is stored under its own public key, and its name fits the
/// metadata encoding.
pub open spec fn coherent(m: Map<Seq<u8>, CertView>) -> bool {
    forall|k: Seq<u8>| #[trigger] m.contains_key(k) ==> m[k].public == k && m[k].fits()
}

/// `s` lists each entry of `m` exactly once.
pub open spec fn enumerates(m: Map<Seq<u8>, CertView>, s: Seq<CertView>) -> bool {
    &&& forall|i: int| 0 <= i < s.len() ==> {
        &&& m.contains_key(#[trigger] s[i].public)
        &&& m[s[i].public] == s[i]
    }
    &&& forall|k: Seq<u8>| #[trigger] m.contains_key(k) ==> exists|i: int|
        0 <= i < s.len() && (#[trigger] s[i]).public == k
    &&& forall|i: int, j: int|
        0 <= i < s.len() && 0 <= j < s.len() && i != j ==> (#[trigger] s[i]).public != (#[trigger] s[j]).public
}

pub(crate) fn add_bytes() -> (r: Vec<u8>)
    ensures
        r@ == add_tag(),
{
    let r: Vec<u8> = vec![65u8, 68, 68];
    assert(r@ =~= add_tag());
    r
}

pub(crate) fn del_bytes() -> (r: Vec<u8>)
    ensures
        r@ == del_tag(),
{
    let r: Vec<u8> = vec![68u8, 69, 76];
    assert(r@ =~= del_tag());
    r
}

/// Every certificate this node knows, by public key.
pub struct CertCache {
    certs: Vec<Cert>,
    model: Ghost<Map<Seq<u8>, CertView>>,
}

impl View for CertCache {
    type V = Map<Seq<u8>, CertView>;

    closed spec fn view(&self) -> Map<Seq<u8>, CertView> {
        self.model@
    }
}

impl CertCache {
    /// The entries in the order in which the cache walks them.
    pub closed spec fn entries(&self) -> Seq<CertView> {
        self.certs@.map_values(|c: Cert| c@)
    }

    /// The cache's internal invariant.
    pub closed spec fn wf(&self) -> bool {
        &&& forall|i: int| 0 <= i < self.certs@.len() ==> {
            &&& self.model@.contains_key(#[trigger] self.certs@[i]@.public)
            &&& self.model@[self.certs@[i]@.public] == self.certs@[i]@
            &&& self.certs@[i]@.fits()
        }
        &&& forall|k: Seq<u8>| #[trigger] self.model@.contains_key(k) ==> exists|i: int|
            0 <= i < self.certs@.len() && (#[trigger] self.certs@[i]@).public == k
        &&& forall|i: int, j: int|
            0 <= i < self.certs@.len() && 0 <= j < self.certs@.len() && i != j
                ==> (#[trigger] self.certs@[i]@).public != (#[trigger] self.certs@[j]@).public
    }

    /// What a well-formed cache guarantees of its entries and of the order
    /// in which it walks them.
    pub proof fn lemma_entries(&self)
        requires
            self.wf(),
        ensures
            coherent(self@),
            enumerates(self@, self.entries()),
    {
        assert forall|k: Seq<u8>| #[trigger] self@.contains_key(k) implies self@[k].public == k
            && self@[k].fits() by {
            let i = choose|i: int| 0 <= i < self.certs@.len() && (#[trigger] self.certs@[i]@).public == k;
            assert(self.certs@[i]@.public == k);
        }
        assert forall|k: Seq<u8>| #[trigger] self@.contains_key(k) implies exists|i: int|
            0 <= i < self.entries().len() && (#[trigger] self.entries()[i]).public == k by {
            let i = choose|i: int| 0 <= i < self.certs@.len() && (#[trigger] self.certs@[i]@).public == k;
            assert(self.entries()[i].public == k);
        }
    }

    /// An empty cache.
    pub fn empty() -> (r: CertCache)
        ensures
            r.wf(),
            r@ == Map::<Seq<u8>, CertView>::empty(),
    {
        CertCache { certs: Vec::new(), model: Ghost(Map::empty()) }
    }

    /// The index of the entry for `pubkey`, if any.
    fn find(&self, pubkey: &[u8]) -> (r: Option<usize>)
        requires
            self.wf(),
        ensures
            match r {
                Some(i) => i < self.certs@.len() && self.certs@[i as int]@.public == pubkey@,
                None => !self@.contains_key(pubkey@),
            },
    {
        let mut i: usize = 0;
        while i < self.certs.len()
            invariant
                self.wf(),
                i <= self.certs@.len(),
                forall|j: int| 0 <= j < i ==> (#[trigger] self.certs@[j]@).public != pubkey@,
            decreases self.certs@.len() - i,
        {
            if bytes_eq(self.certs[i].public_txt(), pubkey) {
                return Some(i);
            }
            i = i + 1;
        }
        proof {
            if self@.contains_key(pubkey@) {
                let j = choose|j: int| 0 <= j < self.certs@.len() && (#[trigger] self.certs@[j]@).public == pubkey@;
                assert(self.certs@[j]@.public == pubkey@);
            }
        }
        None
    }

    /// Inserts `cert`, replacing any entry with the same public key.
    pub fn insert(&mut self, cert: Cert)
        requires
            old(self).wf(),
            cert@.fits(),
        ensures
            final(self).wf(),
            final(self)@ == old(self)@.insert(cert@.public, cert@),
    {
        let ghost v = cert@;
        let ghost mut at: int = 0;
        match self.find(cert.public_txt()) {
            Some(i) => {
                self.certs.set(i, cert);
                proof { at = i as int; }
            },
            None => {
                self.certs.push(cert);
                proof { at = self.certs@.len() - 1; }
            },
        }
        assert(self.certs@[at]@ == v);
        self.model = Ghost(self.model@.insert(v.public, v));
        assert forall|k: Seq<u8>| #[trigger] self.model@.contains_key(k) implies exists|i: int|
            0 <= i < self.certs@.len() && (#[trigger] self.certs@[i]@).public == k by {
            if k != v.public {
                let i = choose|i: int| 0 <= i < old(self).certs@.len() && (#[trigger] old(self).certs@[i]@).public == k;
                assert(self.certs@[i]@.public == k);
            } else {
                assert(self.certs@[at]@.public == k);
            }
        }
    }

    /// Removes the entry for `pubkey`, if any.
    pub fn remove(&mut self, pubkey: &[u8])
        requires
            old(self).wf(),
        ensures
            final(self).wf(),
            final(self)@ == old(self)@.remove(pubkey@),
    {
        match self.find(pubkey) {
            Some(i) => {
                let _ = self.certs.remove(i);
                assert forall|j: int| 0 <= j < self.certs@.len() implies (#[trigger] self.certs@[j]@).public != pubkey@ by {
                    if j < i {
                        assert(self.certs@[j] == old(self).certs@[j]);
                    } else {
                        assert(self.certs@[j] == old(self).certs@[j + 1]);
                    }
                }
            },
            None => {},
        }
        self.model = Ghost(self.model@.remove(pubkey@));
        assert forall|k: Seq<u8>| #[trigger] self.model@.contains_key(k) implies exists|i: int|
            0 <= i < self.certs@.len() && (#[trigger] self.certs@[i]@).public == k by {
            let i = choose|i: int| 0 <= i < old(self).certs@.len() && (#[trigger] old(self).certs@[i]@).public == k;
            if self.certs@.len() == old(self).certs@.len() {
                assert(self.certs@[i]@.public == k);
            } else {
                let r = choose|r: int| 0 <= r < old(self).certs@.len() && (#[trigger] old(self).certs@[r]@).public == pubkey@;
                if i < r {
                    assert(self.certs@[i]@.public == k);
                } else {
                    assert(self.certs@[i - 1]@.public == k);
                }
            }
        }
    }

    /// A cache warmed with `certs`: later certificates replace earlier ones
    /// with the same public key.
    pub fn new(certs: Option<Vec<Cert>>) -> (r: CertCache)
        requires
            certs matches Some(v) ==> forall|i: int| 0 <= i < v@.len() ==> (#[trigger] v@[i])@.fits(),
        ensures
            r.wf(),
            r@ == match certs {
                Some(v) => insert_all(Map::empty(), v@.map_values(|c: Cert| c@)),
                None => Map::<Seq<u8>, CertView>::empty(),
            },
    {
        let mut cache = CertCache::empty();
        match certs {
            Some(v) => {
                let ghost views = v@.map_values(|c: Cert| c@);
                let mut v = v;
                let mut rev: Vec<Cert> = Vec::new();
                while v.len() > 0
                    invariant
                        v@.len() + rev@.len() == views.len(),
                        forall|i: int| 0 <= i < v@.len() ==> (#[trigger] v@[i])@ == views[i],
                        forall|i: int| 0 <= i < rev@.len() ==> (#[trigger] rev@[i])@ == views[views.len() - 1 - i],
                        forall|i: int| 0 <= i < views.len() ==> (#[trigger] views[i]).fits(),
                    decreases v@.len(),
                {
                    let c = v.pop().unwrap();
                    rev.push(c);
                }
                let n: usize = rev.len();
                let mut k: usize = 0;
                while rev.len() > 0
                    invariant
                        cache.wf(),
                        n == views.len(),
                        k + rev@.len() == n,
                        forall|i: int| 0 <= i < rev@.len() ==> (#[trigger] rev@[i])@ == views[n - 1 - i],
                        forall|i: int| 0 <= i < views.len() ==> (#[trigger] views[i]).fits(),
                        cache@ == insert_all(Map::empty(), views.subrange(0, k as int)),
                    decreases rev@.len(),
                {
                    let c = rev.pop().unwrap();
                    assert(c@ == views[k as int]);
                    cache.insert(c);
                    k = k + 1;
                    assert(views.subrange(0, k as int).drop_last() =~= views.subrange(0, k - 1));
                }
                assert(views.subrange(0, n as int) =~= views);
            },
            None => {},
        }
        cache
    }

    /// The certificate with public key `pubkey`.
    pub fn get(&self, pubkey: &[u8]) -> (r: Option<&Cert>)
        requires
            self.wf(),
        ensures
            match r {
                Some(c) => self@.contains_key(pubkey@) && self@[pubkey@] == c@,
                None => !self@.contains_key(pubkey@),
            },
    {
        match self.find(pubkey) {
            Some(i) => Some(&self.certs[i]),
            None => None,
        }
    }

    /// A certificate named `name`; `None` where no certificate has that name.
    pub fn get_name(&self, name: &[u8]) -> (r: Option<&Cert>)
        requires
            self.wf(),
        ensures
            match r {
                Some(c) => c@.name == name@ && self@.contains_key(c@.public) && self@[c@.public] == c@,
                None => forall|k: Seq<u8>| #[trigger] self@.contains_key(k) ==> self@[k].name != name@,
            },
    {
        let mut i: usize = 0;
        while i < self.certs.len()
            invariant
                self.wf(),
                i <= self.certs@.len(),
                forall|j: int| 0 <= j < i ==> (#[trigger] self.certs@[j]@).name != name@,
            decreases self.certs@.len() - i,
        {
            if bytes_eq(self.certs[i].name(), name) {
                return Some(&self.certs[i]);
            }
            i = i + 1;
        }
        assert forall|k: Seq<u8>| #[trigger] self@.contains_key(k) implies self@[k].name != name@ by {
            let j = choose|j: int| 0 <= j < self.certs@.len() && (#[trigger] self.certs@[j]@).public == k;
            assert(self.certs@[j]@.name != name@);
        }
        None
    }

    /// The certificates of type `cert_type`, in the order the cache walks them.
    pub fn dump(&self, cert_type: CertType) -> (r: Vec<&Cert>)
        requires
            self.wf(),
        ensures
            r@.map_values(|c: &Cert| c@) == select(self.entries(), Some(cert_type)),
    {
        let mut r: Vec<&Cert> = Vec::new();
        let mut i: usize = 0;
        while i < self.certs.len()
            invariant
                i <= self.certs@.len(),
                r@.map_values(|c: &Cert| c@) == select(self.entries().subrange(0, i as int), Some(cert_type)),
            decreases self.certs@.len() - i,
        {
            let c = &self.certs[i];
            assert(self.entries().subrange(0, i + 1).drop_last() =~= self.entries().subrange(0, i as int));
            if c.cert_type() == cert_type {
                r.push(c);
            }
            i = i + 1;
            assert(r@.map_values(|c: &Cert| c@) =~= select(self.entries().subrange(0, i as int), Some(cert_type)));
        }
        assert(self.entries().subrange(0, i as int) =~= self.entries());
        r
    }

    /// The snapshot for a subscriber of `topic`: one ADD event carrying every
    /// matching certificate, without secret keys. `None` where no
    /// certificate matches, as nothing is sent then.
    pub fn send(&self, topic: Option<CertType>) -> (r: Option<Vec<Vec<u8>>>)
        requires
            self.wf(),
        ensures
            match r {
                Some(m) => select(self.entries(), topic).len() > 0
                    && frames_view(m@) == add_msg(topic, select(self.entries(), topic)),
                None => select(self.entries(), topic).len() == 0,
            },
    {
        let mut m: Vec<Vec<u8>> = Vec::new();
        let t: Vec<u8> = match topic {
            Some(ct) => ct.to_bytes(),
            None => Vec::new(),
        };
        assert(t@ =~= topic_tag(topic));
        m.push(t);
        m.push(add_bytes());
        let mut i: usize = 0;
        let mut any: bool = false;
        assert(frames_view(m@) =~= add_msg(topic, select(self.entries().subrange(0, 0), topic)));
        while i < self.certs.len()
            invariant
                self.wf(),
                i <= self.certs@.len(),
                any == (select(self.entries().subrange(0, i as int), topic).len() > 0),
                frames_view(m@) == add_msg(topic, select(self.entries().subrange(0, i as int), topic)),
            decreases self.certs@.len() - i,
        {
            let c = &self.certs[i];
            let ghost pre = self.entries().subrange(0, i as int);
            assert(self.entries().subrange(0, i + 1).drop_last() =~= pre);
            assert(self.entries().subrange(0, i + 1).last() == c@);
            let pass = match topic {
                Some(ct) => c.cert_type() == ct,
                None => true,
            };
            if pass {
                assert(self.model@.contains_key(self.certs@[i as int]@.public));
                let ghost m0 = frames_view(m@);
                let pk = to_vec(c.public_txt());
                let meta = c.encode_meta();
                m.push(pk);
                m.push(meta);
                any = true;
                let ghost sel = select(pre, topic).push(c@);
                assert(sel.drop_last() =~= select(pre, topic));
                assert(cert_pairs(sel) == cert_pairs(select(pre, topic)) + seq![c@.public, meta_of(c@.name, c@.cert_type)]);
                assert(frames_view(m@) =~= m0 + seq![c@.public, meta_of(c@.name, c@.cert_type)]);
                assert(frames_view(m@) =~= add_msg(topic, sel));
            }
            i = i + 1;
        }
        assert(self.entries().subrange(0, i as int) =~= self.entries());
        if !any {
            None
        } else {
            Some(m)
        }
    }

    /// Applies an update event: `[topic, "ADD", (public key, metadata)...]`
    /// inserts or replaces each carried certificate, `[topic, "DEL", public
    /// key]` removes one. An event that cannot be interpreted is
    /// `InvalidCertFeed` and leaves the cache as it was.
    pub fn recv(&mut self, msg: &Vec<Vec<u8>>) -> (r: Result<(), Error>)
        requires
            old(self).wf(),
        ensures
            final(self).wf(),
            match apply_event(old(self)@, frames_view(msg@)) {
                Some(m) => r is Ok && final(self)@ == m,
                None => r == Err::<(), Error>(Error::InvalidCertFeed) && final(self)@ == old(self)@,
            },
    {
        let ghost fv = frames_view(msg@);
        let len: usize = msg.len();
        if len < 2 {
            return Err(Error::InvalidCertFeed);
        }
        let add = add_bytes();
        let del = del_bytes();
        assert(fv[1] == msg@[1]@);
        if bytes_eq(msg[1].as_slice(), add.as_slice()) {
            let ghost p = fv.subrange(2, len as int);
            let mut certs: Vec<Cert> = Vec::new();
            let ghost mut acc: Seq<CertView> = Seq::empty();
            let mut i: usize = 2;
            assert(fv.subrange(2, len as int) =~= p);
            assert(acc + Seq::<CertView>::empty() =~= acc);
            while len - i >= 2
                invariant
                    len == msg@.len(),
                    fv == frames_view(msg@),
                    fv[1] == add_tag(),
                    self.wf(),
                    self@ == old(self)@,
                    p == fv.subrange(2, len as int),
                    2 <= i <= len,
                    decode_pairs(p) == match decode_pairs(fv.subrange(i as int, len as int)) {
                        Some(l) => Some(acc + l),
                        None => None::<Seq<CertView>>,
                    },
                    certs@.map_values(|c: Cert| c@) == acc,
                    forall|j: int| 0 <= j < acc.len() ==> (#[trigger] acc[j]).fits(),
                decreases len - i,
            {
                let ghost q = fv.subrange(i as int, len as int);
                assert(q[0] == msg@[i as int]@);
                assert(q[1] == msg@[i + 1]@);
                assert(q.subrange(2, q.len() as int) =~= fv.subrange(i + 2, len as int));
                let c = match Cert::from_zcert(msg[i].as_slice(), msg[i + 1].as_slice()) {
                    Ok(c) => c,
                    Err(_) => {
                        return Err(Error::InvalidCertFeed);
                    },
                };
                proof {
                    match decode_pairs(fv.subrange(i + 2, len as int)) {
                        Some(l) => {
                            assert(acc + (seq![c@] + l) =~= acc.push(c@) + l);
                        },
                        None => {},
                    }
                    acc = acc.push(c@);
                }
                certs.push(c);
                assert(certs@.map_values(|c: Cert| c@) =~= acc);
                i = i + 2;
            }
            if len - i == 1 {
                assert(decode_pairs(fv.subrange(i as int, len as int)) == None::<Seq<CertView>>);
                return Err(Error::InvalidCertFeed);
            }
            assert(fv.subrange(i as int, len as int) =~= Seq::<Seq<u8>>::empty());
            assert(acc + Seq::<CertView>::empty() =~= acc);
            assert(decode_pairs(p) == Some(acc));
            let n: usize = certs.len();
            let mut k: usize = 0;
            while k < n
                invariant
                    self.wf(),
                    n == acc.len(),
                    k <= n,
                    certs@.map_values(|c: Cert| c@) == acc,
                    forall|j: int| 0 <= j < acc.len() ==> (#[trigger] acc[j]).fits(),
                    self@ == insert_all(old(self)@, acc.subrange(0, k as int)),
                decreases n - k,
            {
                assert(certs@[k as int]@ == acc[k as int]);
                let c = certs[k].duplicate();
                self.insert(c);
                k = k + 1;
                assert(acc.subrange(0, k as int).drop_last() =~= acc.subrange(0, k - 1));
            }
            assert(acc.subrange(0, n as int) =~= acc);
            Ok(())
        } else if bytes_eq(msg[1].as_slice(), del.as_slice()) {
            if len < 3 {
                return Err(Error::InvalidCertFeed);
            }
            assert(fv[2] == msg@[2]@);
            self.remove(msg[2].as_slice());
            Ok(())
        } else {
            Err(Error::InvalidCertFeed)
        }
    }

    /// Copies of every entry, in the order in which the cache walks them.
    pub fn copies(&self) -> (r: Vec<Cert>)
        requires
            self.wf(),
        ensures
            r@.map_values(|c: Cert| c@) == self.entries(),
            forall|i: int| 0 <= i < r@.len() ==> (#[trigger] r@[i])@.fits(),
    {
        let mut r: Vec<Cert> = Vec::new();
        let mut i: usize = 0;
        while i < self.certs.len()
            invariant
                self.wf(),
                i <= self.certs@.len(),
                r@.map_values(|c: Cert| c@) == self.entries().subrange(0, i as int),
                forall|j: int| 0 <= j < r@.len() ==> (#[trigger] r@[j])@.fits(),
            decreases self.certs@.len() - i,
        {
            assert(self.model@.contains_key(self.certs@[i as int]@.public));
            assert(self.entries().subrange(0, i + 1).drop_last() =~= self.entries().subrange(0, i as int));
            assert(self.entries()[i as int] == self.certs@[i as int]@);
            let c = self.certs[i].duplicate();
            r.push(c);
            i = i + 1;
            assert(r@.map_values(|c: Cert| c@) =~= self.entries().subrange(0, i as int));
        }
        assert(self.entries().subrange(0, i as int) =~= self.entries());
        r
    }
}

} // verus!

verus! {

/// The public key frames of `s` are pairwise distinct.
pub open spec fn distinct_keys(s: Seq<CertView>) -> bool {
    forall|i: int, j: int|
        0 <= i < s.len() && 0 <= j < s.len() && i != j ==> (#[trigger] s[i]).public != (#[trigger] s[j]).public
}

/// The entries of `m` that pass the filter, without their secret keys.
pub open spec fn filtered(m: Map<Seq<u8>, CertView>, topic: Option<CertType>) -> Map<Seq<u8>, CertView> {
    Map::new(|k: Seq<u8>| m.contains_key(k) && matches_topic(topic, m[k]), |k: Seq<u8>| m[k].public_only())
}

/// Every certificate that `select` keeps is one of `s` that passes the filter.
pub proof fn lemma_select_sound(s: Seq<CertView>, topic: Option<CertType>)
    ensures
        forall|j: int| 0 <= j < select(s, topic).len() ==> exists|i: int|
            0 <= i < s.len() && s[i] == #[trigger] select(s, topic)[j] && matches_topic(topic, s[i]),
    decreases s.len(),
{
    if s.len() > 0 {
        let p = s.drop_last();
        lemma_select_sound(p, topic);
        let sp = select(p, topic);
        let sel = select(s, topic);
        if matches_topic(topic, s.last()) {
            assert(sel == sp.push(s.last()));
        } else {
            assert(sel == sp);
        }
        assert forall|j: int| 0 <= j < sel.len() implies exists|i: int|
            0 <= i < s.len() && s[i] == #[trigger] sel[j] && matches_topic(topic, s[i]) by {
            if j < sp.len() {
                assert(sel[j] == sp[j]);
                let i = choose|i: int| 0 <= i < p.len() && p[i] == #[trigger] sp[j] && matches_topic(topic, p[i]);
                assert(s[i] == p[i]);
            } else {
                assert(sel[j] == s[s.len() - 1]);
            }
        }
    }
}

/// Every certificate of `s` that passes the filter is kept by `select`.
pub proof fn lemma_select_complete(s: Seq<CertView>, topic: Option<CertType>)
    ensures
        forall|i: int| 0 <= i < s.len() && matches_topic(topic, #[trigger] s[i]) ==> exists|j: int|
            0 <= j < select(s, topic).len() && select(s, topic)[j] == s[i],
    decreases s.len(),
{
    if s.len() > 0 {
        let p = s.drop_last();
        lemma_select_complete(p, topic);
        let sp = select(p, topic);
        let sel = select(s, topic);
        assert forall|i: int| 0 <= i < s.len() && matches_topic(topic, #[trigger] s[i]) implies exists|j: int|
            0 <= j < sel.len() && sel[j] == s[i] by {
            if i == s.len() - 1 {
                assert(sel[sel.len() - 1] == s[i]);
            } else {
                assert(p[i] == s[i]);
                let j = choose|j: int| 0 <= j < sp.len() && sp[j] == p[i];
                assert(sel[j] == sp[j]);
            }
        }
    }
}

/// `select` keeps keys distinct.
pub proof fn lemma_select_distinct(s: Seq<CertView>, topic: Option<CertType>)
    requires
        distinct_keys(s),
    ensures
        distinct_keys(select(s, topic)),
    decreases s.len(),
{
    if s.len() > 0 {
        let p = s.drop_last();
        assert(forall|i: int| 0 <= i < p.len() ==> p[i] == s[i]);
        assert(distinct_keys(p));
        lemma_select_distinct(p, topic);
        lemma_select_sound(p, topic);
        let sp = select(p, topic);
        let sel = select(s, topic);
        if matches_topic(topic, s.last()) {
            assert forall|a: int, b: int|
                0 <= a < sel.len() && 0 <= b < sel.len() && a != b implies (#[trigger] sel[a]).public
                != (#[trigger] sel[b]).public by {
                if a < sp.len() && b < sp.len() {
                    assert(sel[a] == sp[a] && sel[b] == sp[b]);
                } else if a < sp.len() {
                    let i = choose|i: int| 0 <= i < p.len() && p[i] == #[trigger] sp[a] && matches_topic(topic, p[i]);
                    assert(sel[a] == s[i] && sel[b] == s[s.len() - 1]);
                } else {
                    let i = choose|i: int| 0 <= i < p.len() && p[i] == #[trigger] sp[b] && matches_topic(topic, p[i]);
                    assert(sel[b] == s[i] && sel[a] == s[s.len() - 1]);
                }
            }
        }
    }
}

/// Inserting certificates with distinct keys into an empty map gives a map
/// with exactly their keys, each holding its certificate.
pub proof fn lemma_insert_all_distinct(s: Seq<CertView>)
    requires
        distinct_keys(s),
    ensures
        forall|k: Seq<u8>| #[trigger] insert_all(Map::empty(), s).contains_key(k) <==> exists|i: int|
            0 <= i < s.len() && (#[trigger] s[i]).public == k,
        forall|i: int| 0 <= i < s.len() ==> insert_all(Map::empty(), s)[(#[trigger] s[i]).public] == s[i],
    decreases s.len(),
{
    if s.len() > 0 {
        let p = s.drop_last();
        assert(forall|i: int| 0 <= i < p.len() ==> p[i] == s[i]);
        assert(distinct_keys(p));
        lemma_insert_all_distinct(p);
        let mp = insert_all(Map::empty(), p);
        let m = insert_all(Map::empty(), s);
        assert(m == mp.insert(s.last().public, s.last()));
        assert forall|k: Seq<u8>| #[trigger] m.contains_key(k) implies exists|i: int|
            0 <= i < s.len() && (#[trigger] s[i]).public == k by {
            if k != s.last().public {
                assert(mp.contains_key(k));
                let i = choose|i: int| 0 <= i < p.len() && (#[trigger] p[i]).public == k;
                assert(s[i].public == k);
            } else {
                assert(s[s.len() - 1].public == k);
            }
        }
        assert forall|k: Seq<u8>| (exists|i: int| 0 <= i < s.len() && (#[trigger] s[i]).public == k) implies #[trigger] m.contains_key(k) by {
            let i = choose|i: int| 0 <= i < s.len() && (#[trigger] s[i]).public == k;
            if i < s.len() - 1 {
                assert(p[i].public == k);
                assert(mp.contains_key(k));
            }
        }
        assert forall|i: int| 0 <= i < s.len() implies m[(#[trigger] s[i]).public] == s[i] by {
            if i < s.len() - 1 {
                assert(s[i].public != s[s.len() - 1].public);
                assert(p[i] == s[i]);
                assert(mp[p[i].public] == p[i]);
            }
        }
    }
}

/// A map is rebuilt exactly from a list that enumerates it.
pub proof fn lemma_insert_all_enumerates(m: Map<Seq<u8>, CertView>, s: Seq<CertView>)
    requires
        enumerates(m, s),
    ensures
        insert_all(Map::empty(), s) == m,
{
    assert(distinct_keys(s));
    lemma_insert_all_distinct(s);
    let r = insert_all(Map::empty(), s);
    assert forall|k: Seq<u8>| r.contains_key(k) <==> m.contains_key(k) by {
        if m.contains_key(k) {
            let i = choose|i: int| 0 <= i < s.len() && (#[trigger] s[i]).public == k;
            assert(r.contains_key(s[i].public));
        }
        if r.contains_key(k) {
            let i = choose|i: int| 0 <= i < s.len() && (#[trigger] s[i]).public == k;
            assert(m.contains_key(s[i].public));
        }
    }
    assert forall|k: Seq<u8>| r.contains_key(k) implies r[k] == m[k] by {
        let i = choose|i: int| 0 <= i < s.len() && (#[trigger] s[i]).public == k;
        assert(r[s[i].public] == s[i]);
    }
    assert(r =~= m);
}

proof fn lemma_cert_pairs_len(s: Seq<CertView>)
    ensures
        cert_pairs(s).len() == 2 * s.len(),
    decreases s.len(),
{
    if s.len() > 0 {
        lemma_cert_pairs_len(s.drop_last());
    }
}

proof fn lemma_decode_pairs_append(a: Seq<Seq<u8>>, b: Seq<Seq<u8>>, x: Seq<CertView>)
    requires
        a.len() % 2 == 0,
        decode_pairs(a) == Some(x),
    ensures
        decode_pairs(a + b) == match decode_pairs(b) {
            Some(l) => Some(x + l),
            None => None::<Seq<CertView>>,
        },
    decreases a.len(),
{
    if a.len() == 0 {
        assert(a + b =~= b);
        assert(x =~= Seq::<CertView>::empty());
        match decode_pairs(b) {
            Some(l) => {
                assert(x + l =~= l);
            },
            None => {},
        }
    } else {
        let c = decode_cert(a[0], a[1]).unwrap();
        let rest = a.subrange(2, a.len() as int);
        let xr = decode_pairs(rest).unwrap();
        assert(x == seq![c] + xr);
        lemma_decode_pairs_append(rest, b, xr);
        assert((a + b).subrange(2, (a + b).len() as int) =~= rest + b);
        assert((a + b)[0] == a[0] && (a + b)[1] == a[1]);
        match decode_pairs(b) {
            Some(l) => {
                assert(seq![c] + (xr + l) =~= x + l);
            },
            None => {},
        }
    }
}

/// The frame pairs of certificates decode back to those certificates,
/// without their secret keys.
pub proof fn lemma_decode_cert_pairs(s: Seq<CertView>)
    requires
        forall|i: int| 0 <= i < s.len() ==> (#[trigger] s[i]).fits(),
    ensures
        decode_pairs(cert_pairs(s)) == Some(s.map_values(|c: CertView| c.public_only())),
    decreases s.len(),
{
    if s.len() == 0 {
        assert(s.map_values(|c: CertView| c.public_only()) =~= Seq::<CertView>::empty());
    } else {
        let p = s.drop_last();
        let c = s.last();
        assert(forall|i: int| 0 <= i < p.len() ==> p[i] == s[i]);
        lemma_decode_cert_pairs(p);
        lemma_cert_pairs_len(p);
        let pair: Seq<Seq<u8>> = seq![c.public, meta_of(c.name, c.cert_type)];
        crate::cert::lemma_decode_encoded(c);
        assert(pair.subrange(2, 2) =~= Seq::<Seq<u8>>::empty());
        assert(decode_pairs(Seq::<Seq<u8>>::empty()) == Some(Seq::<CertView>::empty()));
        assert(decode_pairs(pair) == Some(seq![c.public_only()] + Seq::<CertView>::empty()));
        lemma_decode_pairs_append(cert_pairs(p), pair, p.map_values(|c: CertView| c.public_only()));
        assert(p.map_values(|c: CertView| c.public_only()) + (seq![c.public_only()] + Seq::<CertView>::empty())
            =~= s.map_values(|c: CertView| c.public_only()));
    }
}

} // verus!

verus! {

/// A snapshot for `topic`, applied by a subscriber to an empty cache,
/// rebuilds exactly the certificates of the sending cache that match
/// `topic`, without their secret keys; where none matches nothing is sent,
/// and the empty cache is already that view.
pub proof fn lemma_snapshot_round_trip(m: Map<Seq<u8>, CertView>, entries: Seq<CertView>, topic: Option<CertType>)
    requires
        coherent(m),
        enumerates(m, entries),
    ensures
        select(entries, topic).len() == 0 ==> filtered(m, topic) == Map::<Seq<u8>, CertView>::empty(),
        select(entries, topic).len() > 0 ==> apply_event(Map::empty(), add_msg(topic, select(entries, topic)))
            == Some(filtered(m, topic)),
{
    let sel = select(entries, topic);
    lemma_select_sound(entries, topic);
    lemma_select_complete(entries, topic);
    assert(distinct_keys(entries));
    lemma_select_distinct(entries, topic);
    let f = filtered(m, topic);
    assert forall|k: Seq<u8>| f.contains_key(k) implies exists|j: int| 0 <= j < sel.len() && (#[trigger] sel[j]).public == k by {
        let i = choose|i: int| 0 <= i < entries.len() && (#[trigger] entries[i]).public == k;
        assert(entries[i] == m[k]);
        let j = choose|j: int| 0 <= j < sel.len() && sel[j] == entries[i];
        assert(sel[j].public == k);
    }
    if sel.len() == 0 {
        assert(f =~= Map::<Seq<u8>, CertView>::empty());
    } else {
        assert forall|j: int| 0 <= j < sel.len() implies (#[trigger] sel[j]).fits()
            && m.contains_key(sel[j].public) && m[sel[j].public] == sel[j] && matches_topic(topic, sel[j]) by {
            let i = choose|i: int| 0 <= i < entries.len() && entries[i] == #[trigger] sel[j] && matches_topic(topic, entries[i]);
            assert(m.contains_key(entries[i].public));
        }
        lemma_decode_cert_pairs(sel);
        let s2 = sel.map_values(|c: CertView| c.public_only());
        let msg = add_msg(topic, sel);
        assert(msg[1] == add_tag());
        assert(msg.subrange(2, msg.len() as int) =~= cert_pairs(sel));
        assert(distinct_keys(s2));
        lemma_insert_all_distinct(s2);
        let r = insert_all(Map::empty(), s2);
        assert forall|k: Seq<u8>| r.contains_key(k) <==> f.contains_key(k) by {
            if r.contains_key(k) {
                let j = choose|j: int| 0 <= j < s2.len() && (#[trigger] s2[j]).public == k;
                assert(sel[j].public == k);
            }
            if f.contains_key(k) {
                let j = choose|j: int| 0 <= j < sel.len() && (#[trigger] sel[j]).public == k;
                assert(s2[j].public == k);
            }
        }
        assert forall|k: Seq<u8>| r.contains_key(k) implies r[k] == f[k] by {
            let j = choose|j: int| 0 <= j < s2.len() && (#[trigger] s2[j]).public == k;
            assert(r[s2[j].public] == s2[j]);
            assert(sel[j].public == k);
        }
        assert(r =~= f);
    }
}

proof fn lemma_select_public_only(s: Seq<CertView>, topic: Option<CertType>)
    ensures
        select(s.map_values(|c: CertView| c.public_only()), topic) == select(s, topic).map_values(
            |c: CertView| c.public_only(),
        ),
    decreases s.len(),
{
    let t = s.map_values(|c: CertView| c.public_only());
    if s.len() == 0 {
        assert(select(s, topic).map_values(|c: CertView| c.public_only()) =~= Seq::<CertView>::empty());
    } else {
        lemma_select_public_only(s.drop_last(), topic);
        assert(t.drop_last() =~= s.drop_last().map_values(|c: CertView| c.public_only()));
        assert(t.last() == s.last().public_only());
        if matches_topic(topic, s.last()) {
            assert(select(s, topic).map_values(|c: CertView| c.public_only()) =~= select(s.drop_last(), topic).map_values(
                |c: CertView| c.public_only(),
            ).push(s.last().public_only()));
        }
    }
}

proof fn lemma_cert_pairs_public_only(s: Seq<CertView>)
    ensures
        cert_pairs(s.map_values(|c: CertView| c.public_only())) == cert_pairs(s),
    decreases s.len(),
{
    let t = s.map_values(|c: CertView| c.public_only());
    if s.len() > 0 {
        lemma_cert_pairs_public_only(s.drop_last());
        assert(t.drop_last() =~= s.drop_last().map_values(|c: CertView| c.public_only()));
    }
}

/// What goes out on the update feed for a snapshot does not depend on any
/// secret key: it is the same when every certificate has its secret key
/// removed.
pub proof fn lemma_snapshot_ignores_secrets(entries: Seq<CertView>, topic: Option<CertType>)
    ensures
        add_msg(topic, select(entries, topic)) == add_msg(
            topic,
            select(entries.map_values(|c: CertView| c.public_only()), topic),
        ),
{
    lemma_select_public_only(entries, topic);
    lemma_cert_pairs_public_only(select(entries, topic));
}

} // verus!
