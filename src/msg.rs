//! Framing helpers shared by the endpoints: argument counts, status frames
//! and error replies.
use vstd::prelude::*;
use vstd::utf8::decode_utf8;
use crate::bytes::{bytes_eq, frames_view, to_vec};
use crate::error::Error;

verus! {

broadcast use vstd::utf8::encode_utf8_decode_utf8;

/// The status frame "Ok".
pub open spec fn ok_tag() -> Seq<u8> {
    seq![79u8, 107]
}

/// The status frame "Err".
pub open spec fn err_tag() -> Seq<u8> {
    seq![69u8, 114, 114]
}


/// The UTF-8 bytes of a text.
pub open spec fn utf8_of(s: Seq<char>) -> Seq<u8> {
    vstd::utf8::encode_utf8(s)
}

/// Whether `n` frames lie within `min` and, where given, `max`.
pub open spec fn count_ok(n: int, min: int, max: Option<usize>) -> bool {
    min <= n && match max {
        Some(m) => n <= m,
        None => true,
    }
}

/// Whether the text of `a` is the text of `b`.
pub fn str_is(a: &str, b: &str) -> (r: bool)
    ensures
        r == (a@ == b@),
{
    let x = a.as_bytes();
    let y = b.as_bytes();
    proof {
        assert(decode_utf8(x@) == a@);
        assert(decode_utf8(y@) == b@);
    }
    bytes_eq(x, y)
}

/// The bytes of a text.
pub fn utf8_bytes(s: &str) -> (r: Vec<u8>)
    ensures
        r@ == utf8_of(s@),
{
    to_vec(s.as_bytes())
}

pub struct Msg;

impl Msg {
    /// Hands back a request's frames where their number lies within `min`
    /// and, where given, `max`; `InvalidArgsCount` otherwise.
    pub fn expect_recv(frames: Vec<Vec<u8>>, min: usize, max: Option<usize>) -> (r: Result<Vec<Vec<u8>>, Error>)
        ensures
            count_ok(frames@.len() as int, min as int, max) ==> r == Ok::<Vec<Vec<u8>>, Error>(frames),
            !count_ok(frames@.len() as int, min as int, max) ==> r == Err::<Vec<Vec<u8>>, Error>(
                Error::InvalidArgsCount,
            ),
    {
        let n = frames.len();
        let too_many = match max {
            Some(m) => m < n,
            None => false,
        };
        if min > n || too_many {
            Err(Error::InvalidArgsCount)
        } else {
            Ok(frames)
        }
    }

    /// A message of text frames, one per item of `frames`.
    pub fn send(frames: Vec<&str>) -> (r: Vec<Vec<u8>>)
        ensures
            r@.len() == frames@.len(),
            forall|i: int| 0 <= i < frames@.len() ==> (#[trigger] r@[i])@ == utf8_of(frames@[i]@),
    {
        let mut r: Vec<Vec<u8>> = Vec::new();
        let mut i: usize = 0;
        while i < frames.len()
            invariant
                i <= frames@.len(),
                r@.len() == i,
                forall|j: int| 0 <= j < i ==> (#[trigger] r@[j])@ == utf8_of(frames@[j]@),
            decreases frames@.len() - i,
        {
            r.push(utf8_bytes(frames[i]));
            i = i + 1;
        }
        r
    }

    /// A message holding the status "Ok".
    pub fn new_ok() -> (r: Vec<Vec<u8>>)
        ensures
            frames_view(r@) == seq![ok_tag()],
    {
        let mut r: Vec<Vec<u8>> = Vec::new();
        r.push(vec![79u8, 107]);
        assert(frames_view(r@) =~= seq![ok_tag()]);
        r
    }

    /// A message holding the status "Err" and the error's description.
    pub fn send_err(err: &Error) -> (r: Vec<Vec<u8>>)
        ensures
            frames_view(r@) == seq![err_tag(), utf8_of(err.text())],
    {
        let mut r: Vec<Vec<u8>> = Vec::new();
        r.push(vec![69u8, 114, 114]);
        r.push(utf8_bytes(err.description()));
        assert(frames_view(r@) =~= seq![err_tag(), utf8_of(err.text())]);
        r
    }

    /// Whether a socket of the named type can send: `None` for a type name
    /// that is not known.
    pub fn sock_is_writeable(sock_type: &str) -> (r: Option<bool>)
        ensures
            r == if sock_type@ == "PAIR"@ || sock_type@ == "PUB"@ || sock_type@ == "REQ"@ || sock_type@
                == "REP"@ || sock_type@ == "DEALER"@ || sock_type@ == "ROUTER"@ || sock_type@ == "PUSH"@
                || sock_type@ == "XSUB"@ {
                Some(true)
            } else if sock_type@ == "SUB"@ || sock_type@ == "PULL"@ || sock_type@ == "XPUB"@ {
                Some(false)
            } else {
                None
            },
    {
        if str_is(sock_type, "PAIR") || str_is(sock_type, "PUB") || str_is(sock_type, "REQ")
            || str_is(sock_type, "REP") || str_is(sock_type, "DEALER") || str_is(sock_type, "ROUTER")
            || str_is(sock_type, "PUSH") || str_is(sock_type, "XSUB") {
            Some(true)
        } else if str_is(sock_type, "SUB") || str_is(sock_type, "PULL") || str_is(sock_type, "XPUB") {
            Some(false)
        } else {
            None
        }
    }
}

/// The endpoints of the administrative API.
#[derive(Clone, Copy, Debug, PartialEq, Eq, Structural)]
pub enum Endpoint {
    List,
    Lookup,
    Create,
    Delete,
}

impl Endpoint {
    /// The endpoint a request names: "cert::list", "cert::lookup",
    /// "cert::create" or "cert::delete"; any other name is `InvalidEndpoint`.
    pub fn from_name(name: &str) -> (r: Result<Endpoint, Error>)
        ensures
            r == if name@ == "cert::list"@ {
                Ok::<Endpoint, Error>(Endpoint::List)
            } else if name@ == "cert::lookup"@ {
                Ok(Endpoint::Lookup)
            } else if name@ == "cert::create"@ {
                Ok(Endpoint::Create)
            } else if name@ == "cert::delete"@ {
                Ok(Endpoint::Delete)
            } else {
                Err(Error::InvalidEndpoint)
            },
    {
        if str_is(name, "cert::list") {
            Ok(Endpoint::List)
        } else if str_is(name, "cert::lookup") {
            Ok(Endpoint::Lookup)
        } else if str_is(name, "cert::create") {
            Ok(Endpoint::Create)
        } else if str_is(name, "cert::delete") {
            Ok(Endpoint::Delete)
        } else {
            Err(Error::InvalidEndpoint)
        }
    }
}

/// The reply that tells the peer behind `router_id` that its request failed:
/// its routing id, "Err" and the error's description.
pub fn error_reply(router_id: &[u8], err: &Error) -> (r: Vec<Vec<u8>>)
    ensures
        frames_view(r@) == seq![router_id@, err_tag(), utf8_of(err.text())],
{
    let mut r: Vec<Vec<u8>> = Vec::new();
    r.push(to_vec(router_id));
    r.push(vec![69u8, 114, 114]);
    r.push(utf8_bytes(err.description()));
    assert(frames_view(r@) =~= seq![router_id@, err_tag(), utf8_of(err.text())]);
    r
}

} // verus!
