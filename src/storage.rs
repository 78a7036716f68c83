//! The index of the on-disk certificate store: one file per certificate,
//! named after it, under one directory. The files themselves are read and
//! written by the caller; this index decides what they are called and
//! whether an operation is allowed.
use vstd::prelude::*;
use crate::bytes::{bytes_eq, extend, to_vec};
use crate::cert::{Cert, CertView};
use crate::cert_cache::{coherent, enumerates, CertCache};
use crate::error::Error;
use crate::msg::{utf8_bytes, utf8_of};

verus! {

/// No two entries share a name.
pub open spec fn names_unique(m: Map<Seq<u8>, CertView>) -> bool {
    forall|a: Seq<u8>, b: Seq<u8>|
        #[trigger] m.contains_key(a) && #[trigger] m.contains_key(b) && m[a].name == m[b].name ==> a == b
}

/// Whether some entry carries `name`.
pub open spec fn has_name(m: Map<Seq<u8>, CertView>, name: Seq<u8>) -> bool {
    exists|k: Seq<u8>| #[trigger] m.contains_key(k) && m[k].name == name
}

/// ".crt".
pub open spec fn crt_suffix() -> Seq<u8> {
    seq![46u8, 99, 114, 116]
}

/// The file of certificate `name` under directory `dir`.
pub open spec fn path_of(dir: Seq<u8>, name: Seq<u8>) -> Seq<u8> {
    dir + seq![47u8] + name + crt_suffix()
}

/// The certificates kept under one directory, by public key; names are unique.
pub struct PersistDisk {
    path: Vec<u8>,
    name_cache: CertCache,
}

impl View for PersistDisk {
    type V = Map<Seq<u8>, CertView>;

    closed spec fn view(&self) -> Map<Seq<u8>, CertView> {
        self.name_cache@
    }
}

impl PersistDisk {
    /// The directory, as bytes.
    pub closed spec fn dir(&self) -> Seq<u8> {
        self.path@
    }

    pub closed spec fn wf(&self) -> bool {
        self.name_cache.wf() && names_unique(self.name_cache@)
    }

    pub proof fn lemma_wf(&self)
        requires
            self.wf(),
        ensures
            coherent(self@),
            names_unique(self@),
            enumerates(self@, self.entries()),
    {
        self.name_cache.lemma_entries();
    }

    /// An empty index for the store rooted at `path`; `is_dir` says whether
    /// that path is a directory, and where it is not the store is refused with
    /// `InvalidCertPath`.
    pub fn new(path: &str, is_dir: bool) -> (r: Result<PersistDisk, Error>)
        ensures
            !is_dir ==> r == Err::<PersistDisk, Error>(Error::InvalidCertPath),
            is_dir ==> (r matches Ok(d) && d.wf() && d@ == Map::<Seq<u8>, CertView>::empty() && d.dir()
                == utf8_of(path@)),
    {
        if !is_dir {
            return Err(Error::InvalidCertPath);
        }
        Ok(PersistDisk { path: utf8_bytes(path), name_cache: CertCache::empty() })
    }

    /// The file that holds certificate `name`: `<dir>/<name>.crt`.
    pub fn cert_path(&self, name: &[u8]) -> (r: Vec<u8>)
        ensures
            r@ == path_of(self.dir(), name@),
    {
        let mut r = to_vec(self.path.as_slice());
        r.push(47u8);
        extend(&mut r, name);
        let suffix: Vec<u8> = vec![46u8, 99, 114, 116];
        extend(&mut r, suffix.as_slice());
        assert(suffix@ =~= crt_suffix());
        assert(r@ =~= path_of(self.dir(), name@));
        r
    }

    /// The certificate name a store file stands for: its file name without
    /// the ".crt" ending. Files without that ending are not certificates.
    pub fn crt_name(file_name: &[u8]) -> (r: Option<Vec<u8>>)
        ensures
            match r {
                Some(n) => file_name@ == n@ + crt_suffix(),
                None => !(file_name@.len() >= 4 && file_name@.subrange(file_name@.len() - 4, file_name@.len() as int)
                    == crt_suffix()),
            },
    {
        let n = file_name.len();
        if n < 4 {
            return None;
        }
        let suffix: Vec<u8> = vec![46u8, 99, 114, 116];
        assert(suffix@ =~= crt_suffix());
        let tail = to_vec(&file_name[n - 4..n]);
        assert(tail@ =~= file_name@.subrange(n - 4, n as int));
        if bytes_eq(tail.as_slice(), suffix.as_slice()) {
            let stem = to_vec(&file_name[0..n - 4]);
            assert(file_name@ =~= stem@ + crt_suffix());
            Some(stem)
        } else {
            None
        }
    }

    /// The name of the certificate whose public key is `pubkey`.
    pub fn pubkey_to_name(&self, pubkey: &[u8]) -> (r: Option<Vec<u8>>)
        requires
            self.wf(),
        ensures
            match r {
                Some(n) => self@.contains_key(pubkey@) && self@[pubkey@].name == n@,
                None => !self@.contains_key(pubkey@),
            },
    {
        match self.name_cache.get(pubkey) {
            Some(c) => Some(to_vec(c.name())),
            None => None,
        }
    }

    /// The certificate named `name`: `InvalidCert` where there is none.
    pub fn read(&self, name: &[u8]) -> (r: Result<&Cert, Error>)
        requires
            self.wf(),
        ensures
            match r {
                Ok(c) => c@.name == name@ && self@.contains_key(c@.public) && self@[c@.public] == c@,
                Err(e) => e == Error::InvalidCert && !has_name(self@, name@),
            },
    {
        match self.name_cache.get_name(name) {
            Some(c) => Ok(c),
            None => Err(Error::InvalidCert),
        }
    }

    /// Records `cert`, public half only, and gives the file it is to be saved
    /// in. A name that is already taken is `CertNameCollision`.
    pub fn create(&mut self, cert: &Cert) -> (r: Result<Vec<u8>, Error>)
        requires
            old(self).wf(),
            cert@.fits(),
        ensures
            final(self).wf(),
            final(self).dir() == old(self).dir(),
            has_name(old(self)@, cert@.name) ==> r == Err::<Vec<u8>, Error>(Error::CertNameCollision)
                && final(self)@ == old(self)@,
            !has_name(old(self)@, cert@.name) ==> (r matches Ok(p) && p@ == path_of(old(self).dir(), cert@.name)
                && final(self)@ == old(self)@.insert(cert@.public, cert@.public_only())),
    {
        proof {
            self.name_cache.lemma_entries();
        }
        match self.name_cache.get_name(cert.name()) {
            Some(_) => {
                return Err(Error::CertNameCollision);
            },
            None => {},
        }
        let path = self.cert_path(cert.name());
        let ghost old_m = self.name_cache@;
        self.name_cache.insert(cert.public_only());
        proof {
            self.name_cache.lemma_entries();
            assert forall|a: Seq<u8>, b: Seq<u8>|
                #[trigger] self.name_cache@.contains_key(a) && #[trigger] self.name_cache@.contains_key(b)
                    && self.name_cache@[a].name == self.name_cache@[b].name implies a == b by {
                if a != cert@.public && b != cert@.public {
                    assert(old_m.contains_key(a) && old_m.contains_key(b));
                } else if a != cert@.public {
                    assert(old_m.contains_key(a));
                } else if b != cert@.public {
                    assert(old_m.contains_key(b));
                }
            }
        }
        Ok(path)
    }

    /// Forgets certificate `name` and gives the file to remove. A name that
    /// is not there is `InvalidCert`.
    pub fn delete(&mut self, name: &[u8]) -> (r: Result<Vec<u8>, Error>)
        requires
            old(self).wf(),
        ensures
            final(self).wf(),
            final(self).dir() == old(self).dir(),
            !has_name(old(self)@, name@) ==> r == Err::<Vec<u8>, Error>(Error::InvalidCert) && final(self)@
                == old(self)@,
            has_name(old(self)@, name@) ==> (r matches Ok(p) && p@ == path_of(old(self).dir(), name@)
                && exists|k: Seq<u8>| #[trigger] old(self)@.contains_key(k) && old(self)@[k].name == name@
                && final(self)@ == old(self)@.remove(k)),
    {
        let pk = match self.name_cache.get_name(name) {
            Some(c) => to_vec(c.public_txt()),
            None => return Err(Error::InvalidCert),
        };
        let path = self.cert_path(name);
        self.name_cache.remove(pk.as_slice());
        assert(old(self)@.contains_key(pk@) && old(self)@[pk@].name == name@);
        Ok(path)
    }

    /// The certificate whose public key is `pubkey`: `InvalidCert` where
    /// there is none.
    pub fn read_pubkey(&self, pubkey: &[u8]) -> (r: Result<&Cert, Error>)
        requires
            self.wf(),
        ensures
            match r {
                Ok(c) => self@.contains_key(pubkey@) && self@[pubkey@] == c@,
                Err(e) => e == Error::InvalidCert && !self@.contains_key(pubkey@),
            },
    {
        match self.name_cache.get(pubkey) {
            Some(c) => Ok(c),
            None => Err(Error::InvalidCert),
        }
    }

    /// Forgets the certificate whose public key is `pubkey` and gives the
    /// file to remove. A key that is not there is `InvalidCert`.
    pub fn delete_pubkey(&mut self, pubkey: &[u8]) -> (r: Result<Vec<u8>, Error>)
        requires
            old(self).wf(),
        ensures
            final(self).wf(),
            final(self).dir() == old(self).dir(),
            !old(self)@.contains_key(pubkey@) ==> r == Err::<Vec<u8>, Error>(Error::InvalidCert) && final(self)@
                == old(self)@,
            old(self)@.contains_key(pubkey@) ==> (r matches Ok(p) && p@ == path_of(
                old(self).dir(),
                old(self)@[pubkey@].name,
            ) && final(self)@ == old(self)@.remove(pubkey@)),
    {
        let name = match self.pubkey_to_name(pubkey) {
            Some(n) => n,
            None => return Err(Error::InvalidCert),
        };
        proof {
            self.lemma_wf();
        }
        let r = self.delete(name.as_slice());
        proof {
            if let Ok(_) = r {
                let k = choose|k: Seq<u8>| #[trigger] old(self)@.contains_key(k) && old(self)@[k].name == name@
                    && final(self)@ == old(self)@.remove(k);
                assert(k == pubkey@);
            }
        }
        r
    }

    /// Copies of every stored certificate.
    pub fn dump(&self) -> (r: Vec<Cert>)
        requires
            self.wf(),
        ensures
            r@.map_values(|c: Cert| c@) == self.entries(),
            forall|i: int| 0 <= i < r@.len() ==> (#[trigger] r@[i])@.fits(),
    {
        self.name_cache.copies()
    }

    /// The entries in the order in which the index walks them.
    pub closed spec fn entries(&self) -> Seq<CertView> {
        self.name_cache.entries()
    }
}

} // verus!
