//! Streamed XML events, reduced to what the feed reducer reads, and the
//! trusted boundary to quick_xml, which turns document text into events.

use vstd::prelude::*;
use quick_xml::Reader;
use quick_xml::events::Event::{Empty as QEmpty, End as QEnd, Eof as QEof, GeneralRef as QRef,
    Start as QStart, Text as QText};
use crate::xml::XmlEvent::{Empty, End, Eof, Ref, Skip, Start, Text};

verus! {

/// One attribute of a tag: the raw name bytes and the unescaped value.
#[derive(Debug, Clone, PartialEq, Eq)]
pub struct XmlAttr {
    pub key: Vec<u8>,
    pub value: String,
}

/// Spec-level image of an [`XmlAttr`].
pub ghost struct XmlAttrView {
    pub key: Seq<u8>,
    pub value: Seq<char>,
}

impl View for XmlAttr {
    type V = XmlAttrView;

    open spec fn view(&self) -> XmlAttrView {
        XmlAttrView { key: self.key@, value: self.value@ }
    }
}

/// The views of a sequence of attributes.
pub open spec fn spec_attr_views(attrs: Seq<XmlAttr>) -> Seq<XmlAttrView> {
    attrs.map_values(|a: XmlAttr| a@)
}

/// One event of a streamed XML document: an opening, self-closing or closing
/// tag with its raw name bytes, a run of text, a general entity reference by
/// its name, the end of the document, or anything else (`Skip`), including
/// events the reader could not make sense of.
#[derive(Debug, Clone, PartialEq, Eq)]
pub enum XmlEvent {
    Start(Vec<u8>),
    Empty(Vec<u8>, Vec<XmlAttr>),
    Text(String),
    Ref(String),
    End(Vec<u8>),
    Eof,
    Skip,
}

/// Spec-level image of an [`XmlEvent`].
pub ghost enum XmlEventView {
    Start(Seq<u8>),
    Empty(Seq<u8>, Seq<XmlAttrView>),
    Text(Seq<char>),
    Ref(Seq<char>),
    End(Seq<u8>),
    Eof,
    Skip,
}

impl View for XmlEvent {
    type V = XmlEventView;

    open spec fn view(&self) -> XmlEventView {
        match self {
            XmlEvent::Start(n) => XmlEventView::Start(n@),
            XmlEvent::Empty(n, attrs) => XmlEventView::Empty(n@, spec_attr_views(attrs@)),
            XmlEvent::Text(s) => XmlEventView::Text(s@),
            XmlEvent::Ref(s) => XmlEventView::Ref(s@),
            XmlEvent::End(n) => XmlEventView::End(n@),
            XmlEvent::Eof => XmlEventView::Eof,
            XmlEvent::Skip => XmlEventView::Skip,
        }
    }
}

/// The views of a sequence of events.
pub open spec fn spec_event_views(evs: Seq<XmlEvent>) -> Seq<XmlEventView> {
    evs.map_values(|e: XmlEvent| e@)
}

#[verifier::external_type_specification]
#[verifier::external_body]
#[verifier::reject_recursive_types(R)]
pub struct ExReader<R>(Reader<R>);

/// The events quick_xml yields for a document, in order, each reduced as
/// [`XmlEvent`] reduces it, with text trimmed at markup boundaries; the
/// final end-of-document event is not part of the sequence.
pub uninterp spec fn events_of(doc: Seq<char>) -> Seq<XmlEventView>;

/// The events a reader has not yielded yet.
pub uninterp spec fn reader_pending(r: Reader<&[u8]>) -> Seq<XmlEventView>;

/// Relies on quick_xml's `Reader::from_str` and its `trim_text` setting: the
/// new reader will yield the events of `doc` with whitespace around text
/// trimmed.
#[verifier::external_body]
pub(crate) fn reader_from_str<'a>(doc: &'a str) -> (r: Reader<&'a [u8]>)
    ensures
        reader_pending(r) == events_of(doc@),
{
    let mut r = Reader::from_str(doc);
    r.config_mut().trim_text(true);
    r
}

/// Relies on quick_xml's `Reader::read_event` and its event accessors
/// (`name`, `attributes`, `Attribute::unescape_value`, the content getters):
/// yields the head of the pending events reduced to an [`XmlEvent`] — an
/// unhandled or unreadable event comes back as `Skip` — or `Eof` once
/// nothing is pending.
#[verifier::external_body]
pub(crate) fn read_event(r: &mut Reader<&[u8]>) -> (ev: XmlEvent)
    ensures
        reader_pending(*old(r)).len() == 0 ==> ev@ == XmlEventView::Eof && reader_pending(
            *final(r),
        ) == reader_pending(*old(r)),
        reader_pending(*old(r)).len() > 0 ==> ev@ == reader_pending(*old(r))[0] && reader_pending(
            *final(r),
        ) == reader_pending(*old(r)).drop_first(),
{
    match r.read_event() {
        Ok(QStart(e)) => Start(e.name().0.into()),
        Ok(QEnd(e)) => End(e.name().0.into()),
        Ok(QEmpty(e)) => Empty(
            e.name().0.into(),
            e.attributes().flatten().filter_map(
                |a| a.unescape_value().ok().map(|v| XmlAttr { key: a.key.0.into(), value: v.into() }),
            ).collect(),
        ),
        Ok(QText(t)) => Text(t.into_inner().into()),
        Ok(QRef(t)) => Ref(t.into_inner().into()),
        Ok(QEof) => Eof,
        _ => Skip,
    }
}

} // verus!
