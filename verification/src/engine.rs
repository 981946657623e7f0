//! Text of XML documents, for indexing.
use vstd::prelude::*;

use crate::text::{append_chars, chars_of, string_of};

verus! {

/// An event of an XML reader as far as text goes: `Ok(Some(text))` for
/// character data, `Ok(None)` for any other event, `Err(())` for an error.
pub type XmlEventText = Result<Option<String>, ()>;

/// The view of an event.
pub open spec fn event_view(e: XmlEventText) -> Result<Option<Seq<char>>, ()> {
    match e {
        Ok(Some(t)) => Ok(Some(t@)),
        Ok(None) => Ok(None),
        Err(u) => Err(u),
    }
}

/// The views of a sequence of events.
pub open spec fn events_view(v: Seq<XmlEventText>) -> Seq<Result<Option<Seq<char>>, ()>> {
    v.map_values(|e: XmlEventText| event_view(e))
}

/// What the `xml` crate's `EventReader` yields for the bytes of a document,
/// each event in order as `Ok(Some(text))` for `XmlEvent::Characters`,
/// `Ok(None)` for another event and `Err(())` for an error (after which it
/// yields nothing).
pub uninterp spec fn spec_xml_events(bytes: Seq<u8>) -> Seq<Result<Option<Seq<char>>, ()>>;

/// Runs `xml::reader::EventReader` over the bytes and lists its events, each
/// told apart as character data, another event or an error. Claimed: the
/// events are a function of the bytes.
#[verifier::external_body]
pub(crate) fn xml_events(bytes: &[u8]) -> (r: Vec<XmlEventText>)
    ensures
        events_view(r@) == spec_xml_events(bytes@),
{
    xml::reader::EventReader::new(bytes).into_iter().map(
        |event| match event {
            Ok(xml::reader::XmlEvent::Characters(text)) => Ok(Some(text)),
            Ok(_) => Ok(None),
            Err(_) => Err(()),
        },
    ).collect()
}

/// The character data of a sequence of events, concatenated; `None` when an
/// event is an error.
pub open spec fn events_text(evs: Seq<Result<Option<Seq<char>>, ()>>) -> Option<Seq<char>>
    decreases evs.len(),
{
    if evs.len() == 0 {
        Some(Seq::empty())
    } else {
        match events_text(evs.drop_last()) {
            None => None,
            Some(t) => match evs.last() {
                Ok(Some(c)) => Some(t + c),
                Ok(None) => Some(t),
                Err(_) => None,
            },
        }
    }
}

/// The character data of a sequence of XML events, concatenated; `None` when
/// one of them is an error.
pub fn text_of_events(events: &Vec<XmlEventText>) -> (r: Option<String>)
    ensures
        match events_text(events_view(events@)) {
            Some(t) => r is Some && r->0@ == t,
            None => r is None,
        },
{
    let ghost evs = events_view(events@);
    let mut out: Vec<char> = Vec::new();
    let n = events.len();
    assert(evs.take(0) =~= Seq::<Result<Option<Seq<char>>, ()>>::empty());
    for i in 0..n
        invariant
            n == events.len(),
            evs == events_view(events@),
            events_text(evs.take(i as int)) == Some(out@),
    {
        assert(evs.take(i + 1).drop_last() =~= evs.take(i as int));
        assert(evs.take(i + 1).last() == event_view(events@[i as int]));
        match &events[i] {
            Ok(Some(text)) => {
                append_chars(&mut out, &chars_of(text.as_str()));
            },
            Ok(None) => {},
            Err(_) => {
                proof {
                    lemma_error_stays(evs, i as int + 1);
                }
                return None;
            },
        }
    }
    assert(evs.take(n as int) =~= evs);
    Some(string_of(&out))
}

/// Once a prefix of the events has an error, every longer prefix has one.
proof fn lemma_error_stays(evs: Seq<Result<Option<Seq<char>>, ()>>, k: int)
    requires
        0 <= k <= evs.len(),
        events_text(evs.take(k)) is None,
    ensures
        events_text(evs) is None,
    decreases evs.len() - k,
{
    if k < evs.len() {
        assert(evs.take(k + 1).drop_last() =~= evs.take(k));
        lemma_error_stays(evs, k + 1);
    } else {
        assert(evs.take(k) =~= evs);
    }
}

/// The character data of an XML document, concatenated; `None` when the
/// document is not well-formed XML.
pub fn read_xml_text(bytes: &[u8]) -> (r: Option<String>)
    ensures
        match events_text(spec_xml_events(bytes@)) {
            Some(t) => r is Some && r->0@ == t,
            None => r is None,
        },
{
    let events = xml_events(bytes);
    text_of_events(&events)
}

} // verus!
