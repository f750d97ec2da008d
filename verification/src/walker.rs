//! The walk over a document's events: it keeps the path, hands self-closing
//! `rjs` and `dlsip` elements to their builders and collects the records.

use vstd::prelude::*;
use crate::model::{
    AttributeView, ConfigError, ConfigErrorView, DlsIP, ErrorView, ReadError, Rjs, XmlData,
    XmlDataView, XmlEvent, XmlEventView, result_view,
};
use crate::path::{PathTracker, PathView, empty_path, entered, left, location_of};
use crate::records::{accepted, dlsip_from, is_word, rjs_from};

verus! {

/// quick-xml's reader over some source; nothing of its inside is known here.
#[verifier::external_type_specification]
#[verifier::external_body]
#[verifier::reject_recursive_types(R)]
pub struct ExReader<R>(quick_xml::Reader<R>);

/// What one read of a document gives: an event, or the reader's error.
pub type Reading = Result<XmlEventView, quick_xml::Error>;

/// What a reader gives next: its readings from where it stands, in order, up
/// to and including the first that ends the document or fails.
pub uninterp spec fn pending(reader: quick_xml::Reader<&[u8]>) -> Seq<Reading>;

/// The readings of a whole text, in order, up to and including the first that
/// ends the document or fails. The reader works on the text alone.
pub uninterp spec fn xml_events(text: Seq<char>) -> Seq<Reading>;

/// A reading after which nothing more is read: the end of the document, or a
/// failure of the reader.
pub open spec fn is_last(reading: Reading) -> bool {
    match reading {
        Err(_) => true,
        Ok(event) => event is Eof,
    }
}

/// The readings end with the first that is last: there is one, and none
/// stands before it.
pub open spec fn complete(readings: Seq<Reading>) -> bool {
    &&& readings.len() > 0
    &&& is_last(readings.last())
    &&& forall|i: int| 0 <= i < readings.len() - 1 ==> !is_last(#[trigger] readings[i])
}

/// The view of one reading.
pub open spec fn reading_view(r: Result<XmlEvent, quick_xml::Error>) -> Reading {
    match r {
        Ok(event) => Ok(event@),
        Err(e) => Err(e),
    }
}

/// Calls `quick_xml::Reader::from_str`. The reader that comes back has the
/// text's readings before it: finitely many, since every reading but the last
/// consumes part of the text.
#[verifier::external_body]
fn open_reader(xml: &str) -> (reader: quick_xml::Reader<&[u8]>)
    ensures
        pending(reader) == xml_events(xml@),
        complete(pending(reader)),
{
    quick_xml::Reader::from_str(xml)
}

/// Calls `quick_xml::Reader::read_event` and copies what the walk reads of the
/// event: an element's name, and of a self-closing element what the attribute
/// iterator gives at each place, an attribute as key and raw value, a
/// rejected one as `None`. The result is the first pending reading. Unless
/// that reading ends the document or fails, the reader then gives the rest;
/// of a reader that has failed or ended nothing is claimed.
#[verifier::external_body]
fn next_event(reader: &mut quick_xml::Reader<&[u8]>) -> (res: Result<XmlEvent, quick_xml::Error>)
    ensures
        pending(*old(reader)).len() > 0 ==> reading_view(res) == pending(*old(reader))[0],
        pending(*old(reader)).len() > 0 && !is_last(pending(*old(reader))[0]) ==> pending(
            *final(reader),
        ) == pending(*old(reader)).skip(1),
{
    Ok(match reader.read_event()? {
        quick_xml::events::Event::Start(e) => XmlEvent::Start { name: e.name().0.to_string() },
        quick_xml::events::Event::End(_) => XmlEvent::End,
        quick_xml::events::Event::Empty(e) => XmlEvent::Empty {
            name: e.name().0.to_string(),
            attrs: e.attributes().map(|a| a.ok().map(|a| crate::model::Attribute {
                key: a.key.0.to_string(),
                value: a.value.into_owned(),
            })).collect(),
        },
        quick_xml::events::Event::Eof => XmlEvent::Eof,
        _ => XmlEvent::Other,
    })
}

/// A walk as a mathematical value: the path and the records so far.
pub ghost struct WalkerView {
    pub path: PathView,
    pub data: XmlDataView,
}

/// The walk before the first event.
pub open spec fn start() -> WalkerView {
    WalkerView {
        path: empty_path(),
        data: XmlDataView { rjss: Seq::empty(), diagnet: Seq::empty() },
    }
}

/// A configuration error with the place where it was found.
pub open spec fn located<V>(r: Result<V, ConfigErrorView>, location: Seq<char>) -> Result<
    V,
    ErrorView,
> {
    match r {
        Ok(v) => Ok(v),
        Err(error) => Err(ErrorView::ConfigError { error, location }),
    }
}

/// What a self-closing element does to a walk. Its name is on the path while
/// its builder runs, so that a failure is located at the element itself, and
/// off again afterwards.
pub open spec fn step_empty(
    w: WalkerView,
    name: Seq<char>,
    places: Seq<Option<AttributeView>>,
) -> Result<WalkerView, ErrorView> {
    let attrs = accepted(places);
    let inside = entered(w.path, name);
    let after = left(inside);
    if name == "rjs"@ {
        match located(rjs_from(attrs), location_of(inside)) {
            Err(e) => Err(e),
            Ok(rjs) => Ok(
                WalkerView {
                    path: after,
                    data: XmlDataView { rjss: w.data.rjss.push(rjs), diagnet: w.data.diagnet },
                },
            ),
        }
    } else if name == "dlsip"@ {
        match located(dlsip_from(attrs), location_of(inside)) {
            Err(e) => Err(e),
            Ok(dlsip) => Ok(
                WalkerView {
                    path: after,
                    data: XmlDataView { rjss: w.data.rjss, diagnet: w.data.diagnet.push(dlsip) },
                },
            ),
        }
    } else {
        Ok(WalkerView { path: after, data: w.data })
    }
}

/// What one event does to a walk.
pub open spec fn step(w: WalkerView, event: XmlEventView) -> Result<WalkerView, ErrorView> {
    match event {
        XmlEventView::Start { name } => Ok(WalkerView { path: entered(w.path, name), data: w.data }),
        XmlEventView::End => Ok(WalkerView { path: left(w.path), data: w.data }),
        XmlEventView::Empty { name, attrs } => step_empty(w, name, attrs),
        XmlEventView::Eof => Ok(w),
        XmlEventView::Other => Ok(w),
    }
}

/// The outcome of a walk that goes on from `w` over the given readings: the
/// records at the end of the document, or the first failure, be it the
/// reader's or an element's.
pub open spec fn walk(w: WalkerView, readings: Seq<Reading>) -> Result<XmlDataView, ErrorView>
    decreases readings.len(),
{
    if readings.len() == 0 {
        Ok(w.data)
    } else {
        match readings[0] {
            Err(e) => Err(ErrorView::XmlError(e)),
            Ok(event) => if event is Eof {
                Ok(w.data)
            } else {
                match step(w, event) {
                    Err(e) => Err(e),
                    Ok(next) => walk(next, readings.skip(1)),
                }
            },
        }
    }
}

/// Stamps a builder's failure with the location that the path gives. A
/// success passes through.
pub fn add_location_data<T>(res: Result<T, ConfigError>, path: &PathTracker) -> (out: Result<
    T,
    ReadError,
>)
    requires
        path.wf(),
    ensures
        match res {
            Ok(v) => out == Ok::<T, ReadError>(v),
            Err(c) => out is Err && out->Err_0@ == (ErrorView::ConfigError {
                error: c@,
                location: location_of(path@),
            }),
        },
{
    match res {
        Ok(v) => Ok(v),
        Err(error) => Err(ReadError::ConfigError { error, location: path.location() }),
    }
}

/// The state of a walk: the path to the current place and the records found
/// so far.
pub struct Walker {
    pub path: PathTracker,
    pub data: XmlData,
}

impl View for Walker {
    type V = WalkerView;

    open spec fn view(&self) -> WalkerView {
        WalkerView { path: self.path@, data: self.data@ }
    }
}

impl Walker {
    /// The walk's path is well-formed.
    pub open spec fn wf(&self) -> bool {
        self.path.wf()
    }

    /// A walk before the first event.
    pub fn new() -> (w: Walker)
        ensures
            w.wf(),
            w@ == start(),
    {
        Walker { path: PathTracker::new(), data: XmlData::default() }
    }

    /// Takes one event: the walk after it, or the failure of the element that
    /// the event brought.
    pub fn step(self, event: XmlEvent) -> (res: Result<Walker, ReadError>)
        requires
            self.wf(),
        ensures
            result_view(res) == step(self@, event@),
            res is Ok ==> res->Ok_0.wf(),
    {
        let mut walker = self;
        match event {
            XmlEvent::Start { name } => {
                walker.path.enter(name.as_str());
                Ok(walker)
            },
            XmlEvent::End => {
                walker.path.leave();
                Ok(walker)
            },
            XmlEvent::Empty { name, attrs } => {
                walker.path.enter(name.as_str());
                if is_word(&name, "rjs") {
                    let built = add_location_data(Rjs::from_attributes(&attrs), &walker.path);
                    match built {
                        Err(e) => Err(e),
                        Ok(rjs) => {
                            walker.data.rjss.push(rjs);
                            walker.path.leave();
                            assert(walker@.data.rjss =~= self@.data.rjss.push(rjs@));
                            Ok(walker)
                        },
                    }
                } else if is_word(&name, "dlsip") {
                    let built = add_location_data(DlsIP::from_attributes(&attrs), &walker.path);
                    match built {
                        Err(e) => Err(e),
                        Ok(dlsip) => {
                            walker.data.diagnet.push(dlsip);
                            walker.path.leave();
                            assert(walker@.data.diagnet =~= self@.data.diagnet.push(dlsip@));
                            Ok(walker)
                        },
                    }
                } else {
                    walker.path.leave();
                    Ok(walker)
                }
            },
            XmlEvent::Eof => Ok(walker),
            XmlEvent::Other => Ok(walker),
        }
    }
}

impl XmlData {
    /// Reads the records of a document given as text: every self-closing
    /// `rjs` and `dlsip` element, each kind in document order. The first
    /// failure, of the markup or of an element, is the result instead.
    pub fn read_from_xml(xml: String) -> (res: Result<XmlData, ReadError>)
        ensures
            result_view(res) == walk(start(), xml_events(xml@)),
    {
        let mut reader = open_reader(xml.as_str());
        let mut walker = Walker::new();
        loop
            invariant
                walker.wf(),
                complete(pending(reader)),
                walk(start(), xml_events(xml@)) == walk(walker@, pending(reader)),
            decreases pending(reader).len(),
        {
            let ghost before = pending(reader);
            let reading = next_event(&mut reader);
            let event = match reading {
                Err(e) => { return Err(ReadError::XmlError(e)); },
                Ok(event) => event,
            };
            if let XmlEvent::Eof = &event {
                return Ok(walker.data);
            }
            assert(before.len() > 1);
            assert(complete(before.skip(1))) by {
                assert(before.skip(1).last() == before.last());
                assert forall|i: int| 0 <= i < before.skip(1).len() - 1 implies !is_last(
                    #[trigger] before.skip(1)[i],
                ) by {
                    assert(before.skip(1)[i] == before[i + 1]);
                }
            }
            walker = match walker.step(event) {
                Err(e) => { return Err(e); },
                Ok(next) => next,
            };
        }
    }
}

} // verus!
