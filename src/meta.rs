//! The transport's metadata encoding, in which a certificate's name and type
//! travel: a sequence of properties, each a one-byte name length, the name,
//! a four-byte big-endian value length and the value.
use vstd::prelude::*;
use crate::bytes::{extend, to_vec, bytes_eq};

verus! {

/// A list of metadata properties, as (name, value) pairs.
pub type Props = Seq<(Seq<u8>, Seq<u8>)>;

/// The four big-endian bytes of `n`.
pub open spec fn be32(n: nat) -> Seq<u8> {
    seq![
        ((n / 16777216) % 256) as u8,
        ((n / 65536) % 256) as u8,
        ((n / 256) % 256) as u8,
        (n % 256) as u8,
    ]
}

/// The number that four big-endian bytes stand for.
pub open spec fn be32_value(s: Seq<u8>) -> nat {
    (s[0] as nat) * 16777216 + (s[1] as nat) * 65536 + (s[2] as nat) * 256 + (s[3] as nat)
}

/// One property as it is encoded.
pub open spec fn property(name: Seq<u8>, value: Seq<u8>) -> Seq<u8> {
    seq![name.len() as u8] + name + be32(value.len()) + value
}

/// Whether a property can be encoded: its name and value fit their length fields.
pub open spec fn property_fits(name: Seq<u8>, value: Seq<u8>) -> bool {
    name.len() < 256 && value.len() < 4294967296
}

/// The properties that `b` encodes, or `None` where it is not a well-formed
/// sequence of properties.
pub open spec fn parse_props(b: Seq<u8>) -> Option<Props>
    decreases b.len(),
{
    if b.len() == 0 {
        Some(Seq::empty())
    } else {
        let nl = b[0] as int;
        if b.len() < 5 + nl {
            None
        } else {
            let vl = be32_value(b.subrange(1 + nl, 5 + nl)) as int;
            if b.len() < 5 + nl + vl {
                None
            } else {
                match parse_props(b.subrange(5 + nl + vl, b.len() as int)) {
                    Some(rest) => Some(
                        seq![(b.subrange(1, 1 + nl), b.subrange(5 + nl, 5 + nl + vl))] + rest,
                    ),
                    None => None,
                }
            }
        }
    }
}

/// The value of the first property named `key`.
pub open spec fn prop_value(ps: Props, key: Seq<u8>) -> Option<Seq<u8>>
    decreases ps.len(),
{
    if ps.len() == 0 {
        None
    } else if ps[0].0 == key {
        Some(ps[0].1)
    } else {
        prop_value(ps.drop_first(), key)
    }
}

/// The value of property `key` in the encoded metadata `b`; `None` where `b`
/// is malformed or has no such property.
pub open spec fn meta_value(b: Seq<u8>, key: Seq<u8>) -> Option<Seq<u8>> {
    match parse_props(b) {
        Some(ps) => prop_value(ps, key),
        None => None,
    }
}

pub proof fn lemma_be32_round_trip(n: nat)
    requires
        n < 4294967296,
    ensures
        be32_value(be32(n)) == n,
{
    let b = be32(n);
    assert(b[0] as nat == (n / 16777216) % 256);
    assert(b[1] as nat == (n / 65536) % 256);
    assert(b[2] as nat == (n / 256) % 256);
    assert(b[3] as nat == n % 256);
    assert((n / 16777216) % 256 * 16777216 + (n / 65536) % 256 * 65536 + (n / 256) % 256 * 256
        + n % 256 == n) by (nonlinear_arith)
        requires n < 4294967296;
}

/// Parsing one encoded property followed by more input yields that property
/// followed by what the rest parses to.
pub proof fn lemma_parse_property(name: Seq<u8>, value: Seq<u8>, rest: Seq<u8>)
    requires
        property_fits(name, value),
    ensures
        parse_props(property(name, value) + rest) == match parse_props(rest) {
            Some(ps) => Some(seq![(name, value)] + ps),
            None => None::<Props>,
        },
{
    let b = property(name, value) + rest;
    let nl = name.len() as int;
    lemma_be32_round_trip(value.len());
    assert(b[0] as int == nl);
    assert(b.subrange(1 + nl, 5 + nl) =~= be32(value.len()));
    assert(b.subrange(1, 1 + nl) =~= name);
    assert(b.subrange(5 + nl, 5 + nl + value.len()) =~= value);
    assert(b.subrange(5 + nl + value.len(), b.len() as int) =~= rest);
}

proof fn lemma_prop_value_push(ps: Props, p: (Seq<u8>, Seq<u8>), key: Seq<u8>)
    ensures
        prop_value(ps.push(p), key) == match prop_value(ps, key) {
            Some(v) => Some(v),
            None => if p.0 == key {
                Some(p.1)
            } else {
                None
            },
        },
    decreases ps.len(),
{
    if ps.len() > 0 {
        assert(ps.push(p)[0] == ps[0]);
        assert(ps.push(p).drop_first() =~= ps.drop_first().push(p));
        lemma_prop_value_push(ps.drop_first(), p, key);
    } else {
        assert(ps.push(p)[0] == p);
        assert(ps.push(p).drop_first() =~= Seq::<(Seq<u8>, Seq<u8>)>::empty());
        assert(prop_value(ps.push(p).drop_first(), key) == None::<Seq<u8>>);
    }
}

/// Every property that parses has a name and a value that fit their length fields.
pub proof fn lemma_parsed_props_fit(b: Seq<u8>)
    ensures
        parse_props(b) matches Some(ps) ==> forall|i: int|
            0 <= i < ps.len() ==> property_fits(#[trigger] ps[i].0, ps[i].1),
    decreases b.len(),
{
    if b.len() > 0 {
        let nl = b[0] as int;
        if b.len() >= 5 + nl {
            let vl = be32_value(b.subrange(1 + nl, 5 + nl)) as int;
            if b.len() >= 5 + nl + vl {
                lemma_parsed_props_fit(b.subrange(5 + nl + vl, b.len() as int));
            }
        }
    }
}

/// A value found among properties that fit fits too.
pub proof fn lemma_prop_value_fits(ps: Props, key: Seq<u8>)
    requires
        forall|i: int| 0 <= i < ps.len() ==> property_fits(#[trigger] ps[i].0, ps[i].1),
    ensures
        prop_value(ps, key) matches Some(v) ==> v.len() < 4294967296,
    decreases ps.len(),
{
    if ps.len() > 0 && ps[0].0 != key {
        assert forall|i: int| 0 <= i < ps.drop_first().len() implies property_fits(
            #[trigger] ps.drop_first()[i].0,
            ps.drop_first()[i].1,
        ) by {
            assert(ps.drop_first()[i] == ps[i + 1]);
        }
        lemma_prop_value_fits(ps.drop_first(), key);
    } else if ps.len() > 0 {
        assert(property_fits(ps[0].0, ps[0].1));
    }
}

/// A value found in metadata fits a property's length field.
pub proof fn lemma_meta_value_fits(b: Seq<u8>, key: Seq<u8>)
    ensures
        meta_value(b, key) matches Some(v) ==> v.len() < 4294967296,
{
    lemma_parsed_props_fit(b);
    if let Some(ps) = parse_props(b) {
        lemma_prop_value_fits(ps, key);
    }
}

/// Appends the encoding of one property to `out`.
pub fn push_property(out: &mut Vec<u8>, name: &[u8], value: &[u8])
    requires
        property_fits(name@, value@),
    ensures
        final(out)@ == old(out)@ + property(name@, value@),
{
    let n: usize = value.len();
    out.push(name.len() as u8);
    extend(out, name);
    out.push(((n / 16777216) % 256) as u8);
    out.push(((n / 65536) % 256) as u8);
    out.push(((n / 256) % 256) as u8);
    out.push((n % 256) as u8);
    extend(out, value);
    assert(final(out)@ =~= old(out)@ + property(name@, value@));
}

/// The value of property `key` in the encoded metadata `b`: `None` where `b`
/// is malformed or names no such property.
#[verifier::spinoff_prover]
#[verifier::rlimit(40)]
pub fn find_meta_value(b: &[u8], key: &[u8]) -> (r: Option<Vec<u8>>)
    ensures
        match r {
            Some(v) => meta_value(b@, key@) == Some(v@),
            None => meta_value(b@, key@) == None::<Seq<u8>>,
        },
{
    let len: usize = b.len();
    let mut pos: usize = 0;
    let mut found: Option<Vec<u8>> = None;
    let ghost mut acc: Props = Seq::empty();
    assert(b@.subrange(0, len as int) =~= b@);
    while pos < len
        invariant
            len == b@.len(),
            pos <= len,
            parse_props(b@) == match parse_props(b@.subrange(pos as int, len as int)) {
                Some(l) => Some(acc + l),
                None => None::<Props>,
            },
            match found {
                Some(v) => prop_value(acc, key@) == Some(v@),
                None => prop_value(acc, key@) == None::<Seq<u8>>,
            },
        decreases len - pos,
    {
        let ghost s = b@.subrange(pos as int, len as int);
        let nl: usize = b[pos] as usize;
        assert(s[0] == b@[pos as int]);
        if len - pos < 5 + nl {
            return None;
        }
        let q: usize = pos + 1 + nl;
        let vl: usize = (b[q] as usize) * 16777216 + (b[q + 1] as usize) * 65536
            + (b[q + 2] as usize) * 256 + (b[q + 3] as usize);
        assert(s.subrange(1 + nl, 5 + nl) =~= b@.subrange(q as int, q + 4));
        if len - pos - 5 - nl < vl {
            return None;
        }
        let next: usize = pos + 5 + nl + vl;
        let ghost name = b@.subrange(pos + 1, q as int);
        let ghost value = b@.subrange(q + 4, next as int);
        assert(s.subrange(1, 1 + nl as int) =~= name);
        assert(s.subrange(5 + nl as int, 5 + nl + vl) =~= value);
        assert(s.subrange(5 + nl + vl, s.len() as int) =~= b@.subrange(next as int, len as int));
        proof {
            lemma_prop_value_push(acc, (name, value), key@);
            match parse_props(b@.subrange(next as int, len as int)) {
                Some(l) => {
                    assert(acc + (seq![(name, value)] + l) =~= acc.push((name, value)) + l);
                },
                None => {},
            }
        }
        if found.is_none() {
            let mut same: bool = nl == key.len();
            if same {
                same = bytes_eq(&b[pos + 1..q], key);
            }
            if same {
                found = Some(to_vec(&b[q + 4..next]));
            }
        }
        proof {
            acc = acc.push((name, value));
        }
        pos = next;
    }
    assert(acc + Seq::<(Seq<u8>, Seq<u8>)>::empty() =~= acc);
    found
}

} // verus!
