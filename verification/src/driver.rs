//! The section and item driver: it follows the events of a document, opens a
//! field builder for each list item of an object section, and hands each
//! finished field to the schema. Nested lists are skipped, not read.

use crate::field::{built, feed_code, feed_text, Field, FieldBuilder, FieldModel, Progress};
use crate::schema::{with_field, Code, SchemaModel};
use crate::text::{append_range, chars_of, range_is};
use pulldown_cmark::{Event, Options, Parser, Tag};
use vstd::prelude::*;

verus! {

/// One event of a document, as mathematical value.
pub enum EventModel {
    HeaderStart,
    HeaderEnd,
    ListStart,
    ListEnd,
    ItemStart,
    ItemEnd,
    Text(Seq<char>),
    Code(Seq<char>),
    Other,
}

/// One event of a document, in document order: the bounds of headers, lists
/// and list items, spans of plain text and of inline code, and everything else.
#[derive(Debug, Clone, PartialEq, Eq)]
pub enum DocEvent {
    HeaderStart,
    HeaderEnd,
    ListStart,
    ListEnd,
    ItemStart,
    ItemEnd,
    Text(String),
    Code(String),
    Other,
}

impl View for DocEvent {
    type V = EventModel;

    open spec fn view(&self) -> EventModel {
        match self {
            DocEvent::HeaderStart => EventModel::HeaderStart,
            DocEvent::HeaderEnd => EventModel::HeaderEnd,
            DocEvent::ListStart => EventModel::ListStart,
            DocEvent::ListEnd => EventModel::ListEnd,
            DocEvent::ItemStart => EventModel::ItemStart,
            DocEvent::ItemEnd => EventModel::ItemEnd,
            DocEvent::Text(text) => EventModel::Text(text@),
            DocEvent::Code(code) => EventModel::Code(code@),
            DocEvent::Other => EventModel::Other,
        }
    }
}

/// The events of a sequence, each as mathematical value.
pub open spec fn events_view(events: Seq<DocEvent>) -> Seq<EventModel> {
    events.map_values(|e: DocEvent| e@)
}

/// The driver's state, as mathematical value.
pub enum StateModel {
    Idle,
    InHeader(Seq<char>),
    InFields(Seq<char>),
    InField(Seq<char>, Progress),
    SkipNestedList(Seq<char>, nat),
}

/// The driver's state.
#[derive(Debug, Clone, PartialEq, Eq)]
pub enum DriverState {
    /// Outside any header and any object section.
    Idle,
    /// Inside a header, with the inline code read in it so far.
    InHeader(String),
    /// Inside the object section of the given name, between its list items.
    InFields(String),
    /// Inside a list item of the section, with the builder of its field.
    InField(String, FieldBuilder),
    /// Inside a list nested in a list item of the section, at the given depth.
    SkipNestedList(String, usize),
}

impl View for DriverState {
    type V = StateModel;

    open spec fn view(&self) -> StateModel {
        match self {
            DriverState::Idle => StateModel::Idle,
            DriverState::InHeader(partial) => StateModel::InHeader(partial@),
            DriverState::InFields(section) => StateModel::InFields(section@),
            DriverState::InField(section, builder) => StateModel::InField(section@, builder@),
            DriverState::SkipNestedList(section, depth) => StateModel::SkipNestedList(
                section@,
                *depth as nat,
            ),
        }
    }
}

impl StateModel {
    /// The depth of nested lists that are being skipped.
    pub open spec fn depth(self) -> nat {
        match self {
            StateModel::SkipNestedList(_, depth) => depth,
            _ => 0,
        }
    }
}

/// The text that ends the header of an object section.
pub open spec fn marker() -> Seq<char> {
    " (object)"@
}

/// Whether `text` ends with the marker of an object section.
pub open spec fn ends_with_marker(text: Seq<char>) -> bool {
    text.len() >= marker().len() && text.skip(text.len() - marker().len()) == marker()
}

/// The state after one event. A header start enters a header from any state;
/// every pair of state and event that is not listed leaves the state as it is.
pub open spec fn next_state(state: StateModel, event: EventModel) -> StateModel {
    match (event, state) {
        (EventModel::HeaderStart, _) => StateModel::InHeader(Seq::empty()),
        (EventModel::HeaderEnd, StateModel::InHeader(_)) => StateModel::Idle,
        (EventModel::Code(code), StateModel::InHeader(_)) => StateModel::InHeader(code),
        (EventModel::Text(text), StateModel::InHeader(partial)) => if ends_with_marker(text) {
            StateModel::InFields(partial + text.take(text.len() - marker().len()))
        } else {
            state
        },
        (EventModel::ItemStart, StateModel::InFields(section)) => StateModel::InField(
            section,
            Progress::Name { pending: Seq::empty() },
        ),
        (EventModel::Code(code), StateModel::InField(section, progress)) => StateModel::InField(
            section,
            feed_code(progress, code),
        ),
        (EventModel::Text(text), StateModel::InField(section, progress)) => StateModel::InField(
            section,
            feed_text(progress, text),
        ),
        (EventModel::ListStart, StateModel::InField(section, _)) => StateModel::SkipNestedList(
            section,
            1,
        ),
        (EventModel::ItemEnd, StateModel::InField(section, _)) => StateModel::InFields(section),
        (EventModel::ListStart, StateModel::SkipNestedList(section, depth)) => {
            StateModel::SkipNestedList(section, depth + 1)
        },
        (EventModel::ListEnd, StateModel::SkipNestedList(section, depth)) => if depth <= 1 {
            StateModel::InFields(section)
        } else {
            StateModel::SkipNestedList(section, (depth - 1) as nat)
        },
        _ => state,
    }
}

/// The field that one event hands to the schema, with its section: the one
/// that the builder of a list item gives when the item ends or a nested list
/// starts in it. A builder that gives none hands over nothing.
pub open spec fn emitted(state: StateModel, event: EventModel) -> Option<(Seq<char>, FieldModel)> {
    match (event, state) {
        (EventModel::ListStart, StateModel::InField(section, progress))
        | (EventModel::ItemEnd, StateModel::InField(section, progress)) => match built(progress) {
            Some(field) => Some((section, field)),
            None => None,
        },
        _ => None,
    }
}

/// State and schema after one event.
pub open spec fn advance(at: (StateModel, SchemaModel), event: EventModel) -> (
    StateModel,
    SchemaModel,
) {
    (
        next_state(at.0, event),
        match emitted(at.0, event) {
            Some((section, field)) => with_field(at.1, section, field),
            None => at.1,
        },
    )
}

/// State and schema after a sequence of events, taken in order.
pub open spec fn drive(at: (StateModel, SchemaModel), events: Seq<EventModel>) -> (
    StateModel,
    SchemaModel,
)
    decreases events.len(),
{
    if events.len() == 0 {
        at
    } else {
        advance(drive(at, events.drop_last()), events.last())
    }
}

/// The schema of a document, given by its events.
pub open spec fn schema_of(events: Seq<EventModel>) -> SchemaModel {
    drive((StateModel::Idle, Seq::empty()), events).1
}

/// The events that `pulldown_cmark`'s parser, with all its options switched
/// on, gives for a document.
pub uninterp spec fn markdown_events(text: Seq<char>) -> Seq<EventModel>;

/// `pulldown_cmark::Parser::new_ext` with `Options::all()`, run to its end:
/// the events of `text` in document order, each told apart by its kind and
/// handed over with its text.
#[verifier::external_body]
fn read_markdown(text: &str) -> (events: Vec<DocEvent>)
    ensures
        events_view(events@) == markdown_events(text@),
{
    Parser::new_ext(text, Options::all()).map(|event| match event {
        Event::Start(Tag::Header(_)) => DocEvent::HeaderStart,
        Event::End(Tag::Header(_)) => DocEvent::HeaderEnd,
        Event::Start(Tag::List(_)) => DocEvent::ListStart,
        Event::End(Tag::List(_)) => DocEvent::ListEnd,
        Event::Start(Tag::Item) => DocEvent::ItemStart,
        Event::End(Tag::Item) => DocEvent::ItemEnd,
        Event::Text(text) => DocEvent::Text(text.to_string()),
        Event::Code(code) => DocEvent::Code(code.to_string()),
        _ => DocEvent::Other,
    }).collect()
}

/// The field that a builder gives, with a copy of its section's name.
fn finish(section: &String, builder: &FieldBuilder) -> (r: Option<(String, Field)>)
    ensures
        match r {
            Some((name, field)) => built(builder@) == Some(field@) && name@ == section@,
            None => built(builder@) is None,
        },
{
    match builder.build() {
        Some(field) => Some((section.clone(), field)),
        None => None,
    }
}

/// Takes one event: the next state, and the field to add to the schema, if
/// the event finished one, with the name of its section.
pub fn step(state: DriverState, event: &DocEvent) -> (r: (DriverState, Option<(String, Field)>))
    requires
        state@.depth() < usize::MAX,
    ensures
        r.0@ == next_state(state@, event@),
        match r.1 {
            Some((section, field)) => emitted(state@, event@) == Some((section@, field@)),
            None => emitted(state@, event@) is None,
        },
{
    if let DocEvent::HeaderStart = event {
        return (DriverState::InHeader(String::new()), None);
    }
    match state {
        DriverState::Idle => (DriverState::Idle, None),
        DriverState::InHeader(partial) => match event {
            DocEvent::HeaderEnd => (DriverState::Idle, None),
            DocEvent::Code(code) => (DriverState::InHeader(code.clone()), None),
            DocEvent::Text(text) => {
                let v = chars_of(text.as_str());
                let m = " (object)".unicode_len();
                let n = v.len();
                if n >= m && range_is(&v, n - m, n, " (object)") {
                    assert(v@.subrange(n - m, n as int) == text@.skip(n - m));
                    assert(v@.subrange(0, n - m) == text@.take(n - m));
                    let mut section = partial;
                    append_range(&mut section, &v, 0, n - m);
                    (DriverState::InFields(section), None)
                } else {
                    proof {
                        if n >= m {
                            assert(v@.subrange(n - m, n as int) == text@.skip(n - m));
                        }
                    }
                    (DriverState::InHeader(partial), None)
                }
            },
            _ => (DriverState::InHeader(partial), None),
        },
        DriverState::InFields(section) => match event {
            DocEvent::ItemStart => (DriverState::InField(section, FieldBuilder::new()), None),
            _ => (DriverState::InFields(section), None),
        },
        DriverState::InField(section, builder) => match event {
            DocEvent::Code(code) => {
                let mut builder = builder;
                builder.add_code(code.clone());
                (DriverState::InField(section, builder), None)
            },
            DocEvent::Text(text) => {
                let mut builder = builder;
                builder.add_text(text.clone());
                (DriverState::InField(section, builder), None)
            },
            DocEvent::ListStart => {
                let field = finish(&section, &builder);
                (DriverState::SkipNestedList(section, 1), field)
            },
            DocEvent::ItemEnd => {
                let field = finish(&section, &builder);
                (DriverState::InFields(section), field)
            },
            _ => (DriverState::InField(section, builder), None),
        },
        DriverState::SkipNestedList(section, depth) => match event {
            DocEvent::ListStart => (DriverState::SkipNestedList(section, depth + 1), None),
            DocEvent::ListEnd => if depth <= 1 {
                (DriverState::InFields(section), None)
            } else {
                (DriverState::SkipNestedList(section, depth - 1), None)
            },
            _ => (DriverState::SkipNestedList(section, depth), None),
        },
    }
}

/// The schema of a document, given by its events.
pub fn parse_events(events: &Vec<DocEvent>) -> (code: Code)
    ensures
        code@ == schema_of(events_view(events@)),
        code.wf(),
{
    let ghost all = events_view(events@);
    let mut state = DriverState::Idle;
    let mut code = Code::new();
    let mut i: usize = 0;
    assert(all.take(0) =~= Seq::empty());
    while i < events.len()
        invariant
            i <= events.len(),
            all == events_view(events@),
            (state@, code@) == drive((StateModel::Idle, Seq::empty()), all.take(i as int)),
            state@.depth() <= i,
            code.wf(),
        decreases events.len() - i,
    {
        let ghost before = (state@, code@);
        let (next, field) = step(state, &events[i]);
        state = next;
        if let Some((section, field)) = field {
            code.add_struct_field(section, &field);
        }
        proof {
            let upto = all.take(i + 1);
            assert(upto.drop_last() == all.take(i as int));
            assert(upto.last() == events@[i as int]@);
            assert((state@, code@) == advance(before, events@[i as int]@));
        }
        i += 1;
    }
    assert(all.take(i as int) == all);
    code
}

/// The schema of a document, given as Markdown text.
pub fn parse_document(text: &str) -> (code: Code)
    ensures
        code@ == schema_of(markdown_events(text@)),
        code.wf(),
{
    let events = read_markdown(text);
    parse_events(&events)
}

} // verus!
