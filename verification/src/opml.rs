//! Lists of feeds in OPML.

use crate::newsboat::{FeedSource, SourceData};
use crate::text::same_text;
use quick_xml::events::Event;
use quick_xml::Reader;
use vstd::prelude::*;

verus! {

/// An attribute of an XML element.
#[derive(Debug)]
pub enum XmlAttribute {
    /// The name of the attribute and its value, or why the value cannot be
    /// read.
    Pair(String, Result<String, String>),
    /// Something that is no attribute.
    Broken,
}

/// An attribute of an XML element, as plain texts.
pub enum AttributeData {
    Pair(Seq<char>, Result<Seq<char>, Seq<char>>),
    Broken,
}

impl DeepView for XmlAttribute {
    type V = AttributeData;

    open spec fn deep_view(&self) -> AttributeData {
        match self {
            XmlAttribute::Pair(key, Ok(value)) => AttributeData::Pair(key@, Ok(value@)),
            XmlAttribute::Pair(key, Err(reason)) => AttributeData::Pair(key@, Err(reason@)),
            XmlAttribute::Broken => AttributeData::Broken,
        }
    }
}

/// What comes next in an XML text.
#[derive(Debug)]
pub enum XmlEvent {
    /// The beginning of an element that is not empty.
    Start(String, Vec<XmlAttribute>),
    /// An element that closes itself.
    Empty,
    /// The end of an element.
    End(String),
    /// Anything else.
    Other,
    /// The end of the text.
    Eof,
    /// A mistake in the text.
    Fault(String),
}

/// What comes next in an XML text, as plain texts.
pub enum EventData {
    Start(Seq<char>, Seq<AttributeData>),
    Empty,
    End(Seq<char>),
    Other,
    Eof,
    Fault(Seq<char>),
}

impl DeepView for XmlEvent {
    type V = EventData;

    open spec fn deep_view(&self) -> EventData {
        match self {
            XmlEvent::Start(name, attributes) => EventData::Start(name@, attributes.deep_view()),
            XmlEvent::Empty => EventData::Empty,
            XmlEvent::End(name) => EventData::End(name@),
            XmlEvent::Other => EventData::Other,
            XmlEvent::Eof => EventData::Eof,
            XmlEvent::Fault(reason) => EventData::Fault(reason@),
        }
    }
}

/// The XML reader of quick-xml.
#[verifier::external_type_specification]
#[verifier::external_body]
#[verifier::reject_recursive_types(R)]
pub struct ExReader<R>(quick_xml::Reader<R>);

/// What a reader is still to give, up to the end of the text or the first
/// mistake in it.
pub uninterp spec fn pending_events(reader: Reader<&[u8]>) -> Seq<EventData>;

/// What stands in an XML text, up to its end or the first mistake in it.
pub uninterp spec fn xml_events(text: Seq<char>) -> Seq<EventData>;

/// The end of the text or a mistake in it.
pub open spec fn is_last_event(event: EventData) -> bool {
    event is Eof || event is Fault
}

/// The last event, and no other one, is the end of the text or a mistake.
pub open spec fn ends_properly(events: Seq<EventData>) -> bool {
    &&& events.len() > 0
    &&& is_last_event(events.last())
    &&& forall|i: int| 0 <= i < events.len() - 1 ==> !is_last_event(#[trigger] events[i])
}

/// `Reader::from_str` and the setting `trim_text`: a reader at the beginning
/// of the text. Reading comes to an end, since every event but the last one
/// takes up a piece of the text.
#[verifier::external_body]
fn open_reader(text: &str) -> (reader: Reader<&[u8]>)
    ensures
        pending_events(reader) == xml_events(text@),
        ends_properly(pending_events(reader)),
{
    let mut reader = Reader::from_str(text);
    reader.config_mut().trim_text(true);
    reader
}

/// `Reader::read_event`: the next event, which the reader then has behind it
/// unless it was the last one. Of a reader after the last event nothing is said.
/// Names and values are decoded as `BytesStart::name`, `BytesStart::attributes`
/// and `Attribute::unescape_value` give them; an error is given by its message.
#[verifier::external_body]
fn next_event(reader: &mut Reader<&[u8]>) -> (event: XmlEvent)
    requires
        pending_events(*old(reader)).len() > 0,
    ensures
        event.deep_view() == pending_events(*old(reader))[0],
        pending_events(*old(reader)).len() > 1 ==> pending_events(*final(reader)) == pending_events(
            *old(reader),
        ).drop_first(),
{
    match reader.read_event() {
        Ok(Event::Start(e)) => XmlEvent::Start(
            String::from_utf8_lossy(e.name().0).into_owned(),
            e.attributes().map(|a| match a {
                Ok(a) => XmlAttribute::Pair(
                    String::from_utf8_lossy(a.key.0).into_owned(),
                    a.unescape_value().map(String::from).map_err(|e| e.to_string())),
                Err(_) => XmlAttribute::Broken
            }).collect()),
        Ok(Event::Empty(_)) => XmlEvent::Empty,
        Ok(Event::End(e)) => XmlEvent::End(String::from_utf8_lossy(e.name().0).into_owned()),
        Ok(Event::Eof) => XmlEvent::Eof,
        Ok(_) => XmlEvent::Other,
        Err(e) => XmlEvent::Fault(e.to_string())
    }
}

/// Why a list of feeds cannot be read.
#[derive(Debug)]
pub enum OpmlError {
    /// The text is no XML, for this reason.
    Xml(String),
    /// The value of an attribute cannot be read, for this reason.
    Attribute(String),
}

/// Why a list of feeds cannot be read, as plain texts.
pub enum OpmlErrorData {
    Xml(Seq<char>),
    Attribute(Seq<char>),
}

impl DeepView for OpmlError {
    type V = OpmlErrorData;

    open spec fn deep_view(&self) -> OpmlErrorData {
        match self {
            OpmlError::Xml(reason) => OpmlErrorData::Xml(reason@),
            OpmlError::Attribute(reason) => OpmlErrorData::Attribute(reason@),
        }
    }
}

impl OpmlError {
    /// The words for the error.
    pub fn message(&self) -> (text: String)
        ensures
            text@ == match self.deep_view() {
                OpmlErrorData::Xml(reason) => "OPML parse error: "@ + reason,
                OpmlErrorData::Attribute(reason) => reason,
            },
    {
        match self {
            OpmlError::Xml(reason) => String::new().concat("OPML parse error: ").concat(
                reason.as_str(),
            ),
            OpmlError::Attribute(reason) => reason.clone(),
        }
    }
}

/// What the attributes of an outline say.
pub struct OutlineData {
    pub text: Seq<char>,
    pub title: Seq<char>,
    pub xml_url: Seq<char>,
}

/// What the attribute `key` says.
pub open spec fn outline_with(o: OutlineData, key: Seq<char>, value: Seq<char>) -> OutlineData {
    if key == "text"@ {
        OutlineData { text: value, ..o }
    } else if key == "title"@ {
        OutlineData { title: value, ..o }
    } else if key == "xmlUrl"@ || key == "xmlurl"@ {
        OutlineData { xml_url: value, ..o }
    } else {
        o
    }
}

/// What the attributes of an outline say, or why the first of their values
/// that cannot be read cannot be read.
pub open spec fn outline_of(attributes: Seq<AttributeData>) -> Result<OutlineData, Seq<char>>
    decreases attributes.len(),
{
    if attributes.len() == 0 {
        Ok(OutlineData { text: seq![], title: seq![], xml_url: seq![] })
    } else {
        match outline_of(attributes.drop_last()) {
            Ok(o) => match attributes.last() {
                AttributeData::Pair(key, Ok(value)) => Ok(outline_with(o, key, value)),
                AttributeData::Pair(key, Err(reason)) => Err(reason),
                AttributeData::Broken => Ok(o),
            },
            Err(reason) => Err(reason),
        }
    }
}

/// What has been read of a list: the open sections and the feeds so far.
pub struct OpmlState {
    pub stack: Seq<Seq<char>>,
    pub rows: Seq<SourceData>,
}

/// The first of two texts that is not empty.
pub open spec fn first_of(a: Seq<char>, b: Seq<char>) -> Seq<char> {
    if a.len() > 0 {
        a
    } else {
        b
    }
}

/// What an outline adds: a section, where it has no address, and a feed in the
/// current section otherwise.
pub open spec fn with_outline(state: OpmlState, o: OutlineData) -> OpmlState {
    if o.xml_url.len() == 0 {
        OpmlState { stack: state.stack.push(first_of(o.text, o.title)), ..state }
    } else {
        let title = first_of(o.text, first_of(o.title, o.xml_url));
        let category = if state.stack.len() > 0 {
            state.stack.last()
        } else {
            seq![]
        };
        OpmlState { rows: state.rows.push((o.xml_url, title, category)), ..state }
    }
}

/// What the events after `state` add up to. Elements that close themselves are
/// passed over.
pub open spec fn opml_after(state: OpmlState, events: Seq<EventData>) -> Result<
    Seq<SourceData>,
    OpmlErrorData,
>
    decreases events.len(),
{
    if events.len() == 0 {
        Ok(state.rows)
    } else {
        let rest = events.drop_first();
        match events[0] {
            EventData::Start(name, attributes) => if name == "outline"@ {
                match outline_of(attributes) {
                    Ok(o) => opml_after(with_outline(state, o), rest),
                    Err(reason) => Err(OpmlErrorData::Attribute(reason)),
                }
            } else {
                opml_after(state, rest)
            },
            EventData::End(name) => if name == "outline"@ && state.stack.len() > 0 {
                opml_after(OpmlState { stack: state.stack.drop_last(), ..state }, rest)
            } else {
                opml_after(state, rest)
            },
            EventData::Empty => opml_after(state, rest),
            EventData::Other => opml_after(state, rest),
            EventData::Eof => Ok(state.rows),
            EventData::Fault(reason) => Err(OpmlErrorData::Xml(reason)),
        }
    }
}

/// The feeds of a list with these events.
pub open spec fn opml_data(events: Seq<EventData>) -> Result<Seq<SourceData>, OpmlErrorData> {
    opml_after(OpmlState { stack: seq![], rows: seq![] }, events)
}

/// A result as plain values.
pub open spec fn rows_data(r: Result<Vec<FeedSource>, OpmlError>) -> Result<
    Seq<SourceData>,
    OpmlErrorData,
> {
    match r {
        Ok(rows) => Ok(rows.deep_view()),
        Err(e) => Err(e.deep_view()),
    }
}

/// The attributes of an outline that matter.
struct Outline {
    text: String,
    title: String,
    xml_url: String,
}

/// Reads the attributes of an outline.
fn read_outline(attributes: &Vec<XmlAttribute>) -> (o: Result<Outline, String>)
    ensures
        match outline_of(attributes.deep_view()) {
            Ok(data) => o is Ok && data == (OutlineData {
                text: o->Ok_0.text@,
                title: o->Ok_0.title@,
                xml_url: o->Ok_0.xml_url@,
            }),
            Err(reason) => o is Err && o->Err_0@ == reason,
        },
{
    let ghost all = attributes.deep_view();
    let mut o: Outline = Outline {
        text: String::new(),
        title: String::new(),
        xml_url: String::new(),
    };
    let mut i: usize = 0;
    assert(all.len() == attributes@.len());
    while i < attributes.len()
        invariant
            i <= attributes@.len(),
            all == attributes.deep_view(),
            all.len() == attributes@.len(),
            outline_of(all.take(i as int)) == Ok::<OutlineData, Seq<char>>(
                OutlineData { text: o.text@, title: o.title@, xml_url: o.xml_url@ },
            ),
        decreases attributes@.len() - i,
    {
        assert(all[i as int] == attributes@[i as int].deep_view());
        assert(all.take(i + 1).drop_last() == all.take(i as int));
        match &attributes[i] {
            XmlAttribute::Pair(key, Ok(value)) => {
                let k: &str = key.as_str();
                if same_text(k, "text") {
                    o.text = value.clone();
                } else if same_text(k, "title") {
                    o.title = value.clone();
                } else if same_text(k, "xmlUrl") || same_text(k, "xmlurl") {
                    o.xml_url = value.clone();
                }
            },
            XmlAttribute::Pair(_, Err(reason)) => {
                proof {
                    lemma_outline_error(all, i + 1);
                }
                return Err(reason.clone());
            },
            XmlAttribute::Broken => {},
        }
        i = i + 1;
    }
    assert(all.take(i as int) == all);
    Ok(o)
}

/// An attribute that cannot be read decides, whatever comes after it.
proof fn lemma_outline_error(attributes: Seq<AttributeData>, k: int)
    requires
        0 <= k <= attributes.len(),
        outline_of(attributes.take(k)) is Err,
    ensures
        outline_of(attributes) == outline_of(attributes.take(k)),
    decreases attributes.len() - k,
{
    if k == attributes.len() {
        assert(attributes.take(k) == attributes);
    } else {
        assert(attributes.take(k + 1).drop_last() == attributes.take(k));
        lemma_outline_error(attributes, k + 1);
    }
}

/// The feeds of a list with these events, in order.
pub fn opml_rows(events: &Vec<XmlEvent>) -> (rows: Result<Vec<FeedSource>, OpmlError>)
    ensures
        rows_data(rows) == opml_data(events.deep_view()),
{
    let ghost all = events.deep_view();
    assert(all.len() == events@.len());
    let mut stack: Vec<String> = Vec::new();
    let mut rows: Vec<FeedSource> = Vec::new();
    let mut i: usize = 0;
    assert(all.skip(0) == all);
    assert(stack.deep_view() =~= seq![]);
    assert(rows.deep_view() =~= seq![]);
    while i < events.len()
        invariant
            i <= events@.len(),
            all == events.deep_view(),
            all.len() == events@.len(),
            opml_data(all) == opml_after(
                OpmlState { stack: stack.deep_view(), rows: rows.deep_view() },
                all.skip(i as int),
            ),
        decreases events@.len() - i,
    {
        let ghost rest = all.skip(i as int);
        let ghost sections = stack.deep_view();
        let ghost done = rows.deep_view();
        assert(rest[0] == events@[i as int].deep_view());
        assert(rest.drop_first() == all.skip(i + 1));
        assert(sections.len() == stack@.len());
        match &events[i] {
            XmlEvent::Start(name, attributes) => {
                if same_text(name.as_str(), "outline") {
                    match read_outline(attributes) {
                        Ok(o) => {
                            if o.xml_url.as_str().is_empty() {
                                let section: String = if !o.text.as_str().is_empty() {
                                    o.text
                                } else {
                                    o.title
                                };
                                let ghost pushed = section@;
                                stack.push(section);
                                assert(stack.deep_view() =~= sections.push(pushed));
                            } else {
                                let title: String = if !o.text.as_str().is_empty() {
                                    o.text
                                } else if !o.title.as_str().is_empty() {
                                    o.title
                                } else {
                                    o.xml_url.clone()
                                };
                                let category: String = if stack.len() > 0 {
                                    assert(sections.last() == stack@[stack@.len() - 1]@);
                                    stack[stack.len() - 1].clone()
                                } else {
                                    String::new()
                                };
                                let ghost row: SourceData = (o.xml_url@, title@, category@);
                                assert(category@ =~= if sections.len() > 0 {
                                    sections.last()
                                } else {
                                    seq![]
                                });
                                rows.push((o.xml_url, title, category));
                                assert(rows.deep_view() =~= done.push(row));
                            }
                        },
                        Err(reason) => {
                            return Err(OpmlError::Attribute(reason));
                        },
                    }
                }
            },
            XmlEvent::End(name) => {
                if same_text(name.as_str(), "outline") && stack.len() > 0 {
                    let _ = stack.pop();
                    assert(stack.deep_view() =~= sections.drop_last());
                }
            },
            XmlEvent::Empty => {},
            XmlEvent::Other => {},
            XmlEvent::Eof => {
                return Ok(rows);
            },
            XmlEvent::Fault(reason) => {
                return Err(OpmlError::Xml(reason.clone()));
            },
        }
        i = i + 1;
    }
    assert(all.skip(i as int).len() == 0);
    Ok(rows)
}

/// Reads an XML text up to its end or the first mistake in it.
fn read_events(text: &str) -> (events: Vec<XmlEvent>)
    ensures
        events.deep_view() == xml_events(text@),
{
    let mut events: Vec<XmlEvent> = Vec::new();
    let mut reader: Reader<&[u8]> = open_reader(text);
    let ghost all = xml_events(text@);
    assert(events.deep_view() + pending_events(reader) =~= all);
    loop
        invariant
            all == xml_events(text@),
            events.deep_view() + pending_events(reader) == all,
            ends_properly(pending_events(reader)),
        decreases pending_events(reader).len(),
    {
        let ghost before = pending_events(reader);
        let ghost done = events.deep_view();
        let event: XmlEvent = next_event(&mut reader);
        let ended: bool = match &event {
            XmlEvent::Eof => true,
            XmlEvent::Fault(_) => true,
            _ => false,
        };
        events.push(event);
        assert(events.deep_view() =~= done.push(before[0]));
        if ended {
            assert(before.len() == 1) by {
                if before.len() > 1 {
                    assert(!is_last_event(before[0]));
                }
            }
            assert(events.deep_view() =~= all);
            return events;
        }
        assert(ends_properly(pending_events(reader))) by {
            let after = pending_events(reader);
            assert(before.len() > 1);
            assert forall|i: int| 0 <= i < after.len() - 1 implies !is_last_event(
                #[trigger] after[i],
            ) by {
                assert(after[i] == before[i + 1]);
            }
        }
        assert(events.deep_view() + pending_events(reader) =~= all);
    }
}

/// The feeds of an OPML list, in order. There are none where there is no list.
pub fn parse_opml(list: Option<&str>) -> (rows: Result<Vec<FeedSource>, OpmlError>)
    ensures
        rows_data(rows) == match list.deep_view() {
            Some(text) => opml_data(xml_events(text)),
            None => Ok(seq![]),
        },
{
    match list {
        Some(text) => {
            let events: Vec<XmlEvent> = read_events(text);
            opml_rows(&events)
        },
        None => {
            let rows: Vec<FeedSource> = Vec::new();
            assert(rows.deep_view() =~= seq![]);
            Ok(rows)
        },
    }
}

/// Every feed of an OPML list has an address and a title.
pub proof fn law_opml_rows(state: OpmlState, events: Seq<EventData>)
    requires
        forall|i: int|
            0 <= i < state.rows.len() ==> (#[trigger] state.rows[i]).0.len() > 0
                && state.rows[i].1.len() > 0,
    ensures
        opml_after(state, events) matches Ok(rows) ==> forall|i: int|
            0 <= i < rows.len() ==> (#[trigger] rows[i]).0.len() > 0 && rows[i].1.len() > 0,
    decreases events.len(),
{
    if events.len() > 0 {
        let rest = events.drop_first();
        match events[0] {
            EventData::Start(name, attributes) => {
                if name == "outline"@ && outline_of(attributes) is Ok {
                    law_opml_rows(with_outline(state, outline_of(attributes)->Ok_0), rest);
                } else {
                    law_opml_rows(state, rest);
                }
            },
            EventData::End(name) => {
                if name == "outline"@ && state.stack.len() > 0 {
                    law_opml_rows(OpmlState { stack: state.stack.drop_last(), ..state }, rest);
                } else {
                    law_opml_rows(state, rest);
                }
            },
            _ => {
                law_opml_rows(state, rest);
            },
        }
    }
}

/// A section that is opened and closed leaves nothing behind: what follows it
/// is read as if it had not been there.
pub proof fn law_section_closed(
    state: OpmlState,
    attributes: Seq<AttributeData>,
    rest: Seq<EventData>,
)
    requires
        outline_of(attributes) matches Ok(o) && o.xml_url.len() == 0,
    ensures
        opml_after(
            state,
            seq![EventData::Start("outline"@, attributes), EventData::End("outline"@)] + rest,
        ) == opml_after(state, rest),
{
    let first = EventData::Start("outline"@, attributes);
    let second = EventData::End("outline"@);
    let all = seq![first, second] + rest;
    let o = outline_of(attributes)->Ok_0;
    let inside = with_outline(state, o);
    assert(all.drop_first() =~= seq![second] + rest);
    assert(all.drop_first().drop_first() =~= rest);
    assert(opml_after(state, all) == opml_after(inside, all.drop_first()));
    assert(inside.stack.drop_last() =~= state.stack);
    assert(opml_after(inside, all.drop_first()) == opml_after(
        OpmlState { stack: inside.stack.drop_last(), ..inside },
        rest,
    ));
}

// ---------------------------------------------------------------------------
// What the attributes and the elements of a list are for
// ---------------------------------------------------------------------------

/// An attribute that can be read.
pub open spec fn attribute(key: Seq<char>, value: Seq<char>) -> AttributeData {
    AttributeData::Pair(key, Ok(value))
}

/// An attribute with a name other than `text`, `title`, `xmlUrl` and `xmlurl`, or
/// something that is no attribute.
pub open spec fn is_other(a: AttributeData) -> bool {
    match a {
        AttributeData::Pair(key, Ok(value)) => key != "text"@ && key != "title"@ && key != "xmlUrl"@
            && key != "xmlurl"@,
        AttributeData::Pair(key, Err(reason)) => false,
        AttributeData::Broken => true,
    }
}

/// An attribute with this name.
pub open spec fn is_named(a: AttributeData, key: Seq<char>) -> bool {
    a matches AttributeData::Pair(k, Ok(v)) && k == key
}

/// All values can be read.
pub open spec fn all_read(attributes: Seq<AttributeData>) -> bool {
    forall|i: int|
        0 <= i < attributes.len() ==> !(#[trigger] attributes[i] is Pair && attributes[i]->Pair_1
            is Err)
}

/// Other attributes (`htmlUrl`, `type` and the like) can be added to an outline or
/// taken from it at any place without changing what it says.
pub proof fn law_other_attributes(
    a: Seq<AttributeData>,
    other: AttributeData,
    b: Seq<AttributeData>,
)
    requires
        is_other(other),
    ensures
        outline_of(a + seq![other] + b) == outline_of(a + b),
    decreases b.len(),
{
    let with = a + seq![other] + b;
    let without = a + b;
    if b.len() == 0 {
        assert(with.drop_last() =~= a);
        assert(without =~= a);
    } else {
        assert(with.drop_last() =~= a + seq![other] + b.drop_last());
        assert(without.drop_last() =~= a + b.drop_last());
        assert(with.last() == b.last() && without.last() == b.last());
        law_other_attributes(a, other, b.drop_last());
    }
}

/// Values that can be read make an outline that can be read.
proof fn lemma_all_read(attributes: Seq<AttributeData>)
    requires
        all_read(attributes),
    ensures
        outline_of(attributes) is Ok,
    decreases attributes.len(),
{
    if attributes.len() > 0 {
        let rest = attributes.drop_last();
        assert(forall|i: int| 0 <= i < rest.len() ==> #[trigger] rest[i] == attributes[i]);
        lemma_all_read(rest);
        assert(attributes.last() == attributes[attributes.len() - 1]);
    }
}

/// The last attribute of a name decides: the address of an outline is the value of
/// its last `xmlUrl` or `xmlurl`, its text that of its last `text`, its title that
/// of its last `title`.
pub proof fn law_last_attribute_decides(
    a: Seq<AttributeData>,
    key: Seq<char>,
    value: Seq<char>,
    b: Seq<AttributeData>,
)
    requires
        all_read(a),
        all_read(b),
    ensures
        ({
            let o = outline_of(a + seq![attribute(key, value)] + b);
            &&& o is Ok
            &&& (key == "xmlUrl"@ || key == "xmlurl"@) && (forall|i: int|
                0 <= i < b.len() ==> !is_named(#[trigger] b[i], "xmlUrl"@) && !is_named(
                    b[i],
                    "xmlurl"@,
                )) ==> o->Ok_0.xml_url == value
            &&& key == "text"@ && (forall|i: int|
                0 <= i < b.len() ==> !is_named(#[trigger] b[i], "text"@)) ==> o->Ok_0.text == value
            &&& key == "title"@ && (forall|i: int|
                0 <= i < b.len() ==> !is_named(#[trigger] b[i], "title"@)) ==> o->Ok_0.title == value
        }),
    decreases b.len(),
{
    let all = a + seq![attribute(key, value)] + b;
    reveal_strlit("text");
    reveal_strlit("title");
    reveal_strlit("xmlUrl");
    reveal_strlit("xmlurl");
    assert("text"@ != "title"@ && "text"@ != "xmlUrl"@ && "text"@ != "xmlurl"@) by {
        assert("text"@.len() == 4);
    }
    assert("title"@ != "xmlUrl"@ && "title"@ != "xmlurl"@) by {
        assert("title"@.len() == 5);
    }
    if b.len() == 0 {
        assert(all.drop_last() =~= a);
        lemma_all_read(a);
    } else {
        let rest = b.drop_last();
        assert(all.drop_last() =~= a + seq![attribute(key, value)] + rest);
        assert(all.last() == b.last());
        assert(forall|i: int| 0 <= i < rest.len() ==> #[trigger] rest[i] == b[i]);
        law_last_attribute_decides(a, key, value, rest);
        assert(b.last() == b[b.len() - 1]);
    }
}

/// What no attribute speaks of is empty.
pub proof fn law_missing_attributes(attributes: Seq<AttributeData>)
    requires
        all_read(attributes),
    ensures
        outline_of(attributes) matches Ok(o) && {
            &&& (forall|i: int|
                0 <= i < attributes.len() ==> !is_named(#[trigger] attributes[i], "xmlUrl"@)
                    && !is_named(attributes[i], "xmlurl"@)) ==> o.xml_url.len() == 0
            &&& (forall|i: int|
                0 <= i < attributes.len() ==> !is_named(#[trigger] attributes[i], "text"@))
                ==> o.text.len() == 0
            &&& (forall|i: int|
                0 <= i < attributes.len() ==> !is_named(#[trigger] attributes[i], "title"@))
                ==> o.title.len() == 0
        },
    decreases attributes.len(),
{
    if attributes.len() > 0 {
        let rest = attributes.drop_last();
        assert(forall|i: int| 0 <= i < rest.len() ==> #[trigger] rest[i] == attributes[i]);
        law_missing_attributes(rest);
        assert(attributes.last() == attributes[attributes.len() - 1]);
        lemma_all_read(attributes);
    }
}

/// A value that cannot be read ends the reading of the list, with its reason.
pub proof fn law_unreadable_value(
    state: OpmlState,
    a: Seq<AttributeData>,
    key: Seq<char>,
    reason: Seq<char>,
    b: Seq<AttributeData>,
    rest: Seq<EventData>,
)
    requires
        all_read(a),
    ensures
        opml_after(
            state,
            seq![
                EventData::Start("outline"@, a + seq![AttributeData::Pair(key, Err(reason))] + b),
            ] + rest,
        ) == Err::<Seq<SourceData>, OpmlErrorData>(OpmlErrorData::Attribute(reason)),
{
    let all = a + seq![AttributeData::Pair(key, Err(reason))] + b;
    let k = a.len() + 1;
    assert(all.take(k as int).drop_last() =~= a);
    assert(all.take(k as int).last() == AttributeData::Pair(key, Err(reason)));
    lemma_all_read(a);
    lemma_outline_error(all, k as int);
    let events = seq![EventData::Start("outline"@, all)] + rest;
    assert(events[0] == EventData::Start("outline"@, all));
}

/// An outline with an address is a feed: it comes after the feeds before it, in
/// the section that was opened last and is not closed. Its title is its text, or
/// else its title, or else its address. The sections stay as they are.
pub proof fn law_feed_outline(
    state: OpmlState,
    attributes: Seq<AttributeData>,
    rest: Seq<EventData>,
    o: OutlineData,
)
    requires
        outline_of(attributes) == Ok::<OutlineData, Seq<char>>(o),
        o.xml_url.len() > 0,
    ensures
        exists|row: SourceData|
            {
                &&& #[trigger] opml_after(
                    OpmlState { rows: state.rows.push(row), stack: state.stack },
                    rest,
                ) == opml_after(state, seq![EventData::Start("outline"@, attributes)] + rest)
                &&& row.0 == o.xml_url
                &&& o.text.len() > 0 ==> row.1 == o.text
                &&& o.text.len() == 0 && o.title.len() > 0 ==> row.1 == o.title
                &&& o.text.len() == 0 && o.title.len() == 0 ==> row.1 == o.xml_url
                &&& state.stack.len() > 0 ==> row.2 == state.stack[state.stack.len() - 1]
                &&& state.stack.len() == 0 ==> row.2.len() == 0
            },
{
    let events = seq![EventData::Start("outline"@, attributes)] + rest;
    assert(events.drop_first() =~= rest);
    let next = with_outline(state, o);
    let row = next.rows.last();
    assert(next.rows =~= state.rows.push(row));
    assert(opml_after(OpmlState { rows: state.rows.push(row), stack: state.stack }, rest)
        == opml_after(state, events));
}

/// An outline without an address opens a section, which has its text for a name,
/// or else its title. It adds no feed.
pub proof fn law_section_outline(
    state: OpmlState,
    attributes: Seq<AttributeData>,
    rest: Seq<EventData>,
    o: OutlineData,
)
    requires
        outline_of(attributes) == Ok::<OutlineData, Seq<char>>(o),
        o.xml_url.len() == 0,
    ensures
        o.text.len() > 0 ==> opml_after(
            state,
            seq![EventData::Start("outline"@, attributes)] + rest,
        ) == opml_after(OpmlState { stack: state.stack.push(o.text), rows: state.rows }, rest),
        o.text.len() == 0 ==> opml_after(
            state,
            seq![EventData::Start("outline"@, attributes)] + rest,
        ) == opml_after(OpmlState { stack: state.stack.push(o.title), rows: state.rows }, rest),
{
    let events = seq![EventData::Start("outline"@, attributes)] + rest;
    assert(events.drop_first() =~= rest);
}

/// The end of an outline closes the section that was opened last, where one is
/// open. The feeds stay.
pub proof fn law_outline_end(state: OpmlState, section: Seq<char>, rest: Seq<EventData>)
    ensures
        opml_after(
            OpmlState { stack: state.stack.push(section), rows: state.rows },
            seq![EventData::End("outline"@)] + rest,
        ) == opml_after(state, rest),
        opml_after(
            OpmlState { stack: seq![], rows: state.rows },
            seq![EventData::End("outline"@)] + rest,
        ) == opml_after(OpmlState { stack: seq![], rows: state.rows }, rest),
{
    let events = seq![EventData::End("outline"@)] + rest;
    assert(events.drop_first() =~= rest);
    assert(state.stack.push(section).drop_last() =~= state.stack);
}

/// Elements with other names, elements that close themselves and all else change
/// nothing.
pub proof fn law_other_events(
    state: OpmlState,
    name: Seq<char>,
    attributes: Seq<AttributeData>,
    rest: Seq<EventData>,
)
    requires
        name != "outline"@,
    ensures
        opml_after(state, seq![EventData::Start(name, attributes)] + rest) == opml_after(state, rest),
        opml_after(state, seq![EventData::End(name)] + rest) == opml_after(state, rest),
        opml_after(state, seq![EventData::Empty] + rest) == opml_after(state, rest),
        opml_after(state, seq![EventData::Other] + rest) == opml_after(state, rest),
{
    assert((seq![EventData::Start(name, attributes)] + rest).drop_first() =~= rest);
    assert((seq![EventData::End(name)] + rest).drop_first() =~= rest);
    assert((seq![EventData::Empty] + rest).drop_first() =~= rest);
    assert((seq![EventData::Other] + rest).drop_first() =~= rest);
}

/// The end of the text gives the feeds that were read, a mistake in it gives its
/// reason, and reading begins without sections and feeds.
pub proof fn law_end_of_list(state: OpmlState, reason: Seq<char>, rest: Seq<EventData>)
    ensures
        opml_after(state, seq![EventData::Eof] + rest) == Ok::<Seq<SourceData>, OpmlErrorData>(
            state.rows,
        ),
        opml_after(state, seq![EventData::Fault(reason)] + rest) == Err::<
            Seq<SourceData>,
            OpmlErrorData,
        >(OpmlErrorData::Xml(reason)),
        opml_data(rest) == opml_after(OpmlState { stack: seq![], rows: seq![] }, rest),
{
    assert((seq![EventData::Eof] + rest)[0] == EventData::Eof);
    assert((seq![EventData::Fault(reason)] + rest)[0] == EventData::Fault(reason));
}

} // verus!
