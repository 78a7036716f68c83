//! What the update proxy does with a subscription frame seen on its XPUB
//! side: a subscribe event gets a snapshot of the matching certificates.
use vstd::prelude::*;
use crate::bytes::{frames_view, to_vec};
use crate::cert::{parse_type, CertType, CertView};
use crate::cert_cache::{add_msg, select, CertCache};
use crate::error::Error;

verus! {

/// The snapshot sent for a subscription to `topic`, or nothing where no
/// certificate matches.
pub open spec fn snapshot_reply(entries: Seq<CertView>, topic: Option<CertType>) -> Option<Seq<Seq<u8>>> {
    if select(entries, topic).len() == 0 {
        None
    } else {
        Some(add_msg(topic, select(entries, topic)))
    }
}

/// The topic filter a subscribe frame asks for: the frame is event code 1
/// followed by the topic, where an empty topic asks for every certificate.
/// `None` for a frame that is not a subscribe event.
pub open spec fn subscription_topic(frame: Seq<u8>) -> Option<Result<Option<CertType>, Error>> {
    if frame.len() == 0 || frame[0] != 1 {
        None
    } else if frame.len() == 1 {
        Some(Ok(None))
    } else {
        match parse_type(frame.subrange(1, frame.len() as int)) {
            Some(t) => Some(Ok(Some(t))),
            None => Some(Err(Error::InvalidCertMeta)),
        }
    }
}

/// What to inject for a subscription frame: the snapshot for a subscribe
/// event, nothing for an unsubscribe event, and `InvalidCertMeta` for a
/// subscription to an unknown topic.
pub open spec fn subscription_snapshot(entries: Seq<CertView>, frame: Seq<u8>) -> Result<Option<Seq<Seq<u8>>>, Error> {
    match subscription_topic(frame) {
        None => Ok(None),
        Some(Ok(topic)) => Ok(snapshot_reply(entries, topic)),
        Some(Err(e)) => Err(e),
    }
}

/// The snapshot to send before forwarding the subscription `frame`.
pub fn on_subscription(cache: &CertCache, frame: &[u8]) -> (r: Result<Option<Vec<Vec<u8>>>, Error>)
    requires
        cache.wf(),
    ensures
        match subscription_snapshot(cache.entries(), frame@) {
            Ok(None) => r matches Ok(None),
            Ok(Some(m)) => (r matches Ok(Some(x)) && frames_view(x@) == m),
            Err(e) => r == Err::<Option<Vec<Vec<u8>>>, Error>(e),
        },
{
    let n = frame.len();
    if n == 0 || frame[0] != 1 {
        return Ok(None);
    }
    let topic = if n == 1 {
        None
    } else {
        let t = to_vec(&frame[1..n]);
        assert(t@ =~= frame@.subrange(1, n as int));
        Some(CertType::from_bytes(t.as_slice())?)
    };
    Ok(cache.send(topic))
}

} // verus!

verus! {

/// The entries of `m` that match `topic`.
pub open spec fn matching(m: Map<Seq<u8>, CertView>, topic: Option<CertType>) -> Map<Seq<u8>, CertView> {
    Map::new(|k: Seq<u8>| m.contains_key(k) && crate::cert_cache::matches_topic(topic, m[k]), |k: Seq<u8>| m[k])
}

/// A subscribe event for `topic` (an empty topic for every certificate) is
/// answered with one snapshot that lists exactly the certificates matching
/// `topic`, each once, provided at least one matches; otherwise nothing is
/// sent.
pub proof fn lemma_subscribe_snapshot(m: Map<Seq<u8>, CertView>, entries: Seq<CertView>, topic: Option<CertType>)
    requires
        crate::cert_cache::enumerates(m, entries),
        topic != Some(CertType::Runtime),
    ensures
        matching(m, topic) != Map::<Seq<u8>, CertView>::empty() ==> subscription_snapshot(
            entries,
            seq![1u8] + crate::cert_cache::topic_tag(topic),
        ) == Ok::<Option<Seq<Seq<u8>>>, Error>(Some(add_msg(topic, select(entries, topic))))
            && crate::cert_cache::enumerates(matching(m, topic), select(entries, topic)),
        matching(m, topic) == Map::<Seq<u8>, CertView>::empty() ==> subscription_snapshot(
            entries,
            seq![1u8] + crate::cert_cache::topic_tag(topic),
        ) == Ok::<Option<Seq<Seq<u8>>>, Error>(None),
{
    let frame = seq![1u8] + crate::cert_cache::topic_tag(topic);
    let sel = select(entries, topic);
    let mm = matching(m, topic);
    match topic {
        Some(t) => {
            assert(frame.subrange(1, frame.len() as int) =~= t.tag());
            assert(crate::cert::host_tag()[0] != crate::cert::user_tag()[0]);
            assert(parse_type(t.tag()) == Some(t));
        },
        None => {
            assert(frame.len() == 1);
        },
    }
    assert(subscription_topic(frame) == Some(Ok::<Option<CertType>, Error>(topic)));
    crate::cert_cache::lemma_select_sound(entries, topic);
    crate::cert_cache::lemma_select_complete(entries, topic);
    crate::cert_cache::lemma_select_distinct(entries, topic);
    assert forall|j: int| 0 <= j < sel.len() implies mm.contains_key(#[trigger] sel[j].public) && mm[sel[j].public] == sel[j] by {
        let i = choose|i: int| 0 <= i < entries.len() && entries[i] == #[trigger] sel[j] && crate::cert_cache::matches_topic(topic, entries[i]);
        assert(m.contains_key(entries[i].public));
    }
    assert forall|k: Seq<u8>| #[trigger] mm.contains_key(k) implies exists|j: int|
        0 <= j < sel.len() && (#[trigger] sel[j]).public == k by {
        let i = choose|i: int| 0 <= i < entries.len() && (#[trigger] entries[i]).public == k;
        let j = choose|j: int| 0 <= j < sel.len() && sel[j] == entries[i];
        assert(sel[j].public == k);
    }
    if mm != Map::<Seq<u8>, CertView>::empty() {
        if sel.len() == 0 {
            assert(mm =~= Map::<Seq<u8>, CertView>::empty());
        }
    } else {
        if sel.len() > 0 {
            assert(mm.contains_key(sel[0].public));
        }
    }
}

/// A subscription to the reserved "runtime" topic is refused.
pub proof fn lemma_subscribe_reserved_topic(entries: Seq<CertView>)
    ensures
        subscription_snapshot(entries, seq![1u8] + crate::cert_cache::topic_tag(Some(CertType::Runtime)))
            == Err::<Option<Seq<Seq<u8>>>, Error>(Error::InvalidCertMeta),
{
    let frame = seq![1u8] + crate::cert::runtime_tag();
    assert(frame.subrange(1, frame.len() as int) =~= crate::cert::runtime_tag());
}

/// An unsubscribe event never gets a snapshot, whatever its topic.
pub proof fn lemma_unsubscribe_no_snapshot(entries: Seq<CertView>, topic: Seq<u8>)
    ensures
        subscription_snapshot(entries, seq![0u8] + topic) == Ok::<Option<Seq<Seq<u8>>>, Error>(None),
{
    assert((seq![0u8] + topic)[0] == 0);
}

} // verus!
