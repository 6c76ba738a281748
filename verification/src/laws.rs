//! What holds of the parser and of the driver on every input.

use crate::driver::{advance, drive, schema_of, EventModel, StateModel};
use crate::field::{built, feed_code, feed_text, FieldModel, Progress};
use crate::render::generated;
use crate::schema::{with_field, SchemaModel};
use crate::text::{lemma_position, lemma_position_is, position};
use crate::types::{sanitized_name, type_text};
use vstd::prelude::*;

verus! {

/// A builder that has read nothing.
pub open spec fn fresh() -> Progress {
    Progress::Name { pending: Seq::empty() }
}

/// In a text that begins with `lead`, which holds no `c`, the first `c` stands
/// where it stands in the rest, `lead` further on.
pub proof fn lemma_position_after(lead: Seq<char>, rest: Seq<char>, c: char)
    requires
        !lead.contains(c),
    ensures
        position(lead + rest, c) == lead.len() + position(rest, c),
{
    lemma_position(rest, c);
    let t = lead + rest;
    let p = lead.len() + position(rest, c);
    assert forall|i: int| 0 <= i < p implies t[i] != c by {
        if i < lead.len() {
            assert(lead.contains(t[i]));
        } else {
            assert(t[i] == rest[i - lead.len()]);
        }
    }
    if p < t.len() {
        assert(t[p] == rest[position(rest, c)]);
    }
    lemma_position_is(t, c, p as int);
}

/// A text without `c` has its first `c` at its end.
pub proof fn lemma_position_none(t: Seq<char>, c: char)
    requires
        !t.contains(c),
    ensures
        position(t, c) == t.len(),
{
    lemma_position_after(t, Seq::empty(), c);
    assert(t + Seq::<char>::empty() =~= t);
}

/// The description `name: example (type) gap - doc` as one text.
pub open spec fn described(
    name: Seq<char>,
    example: Seq<char>,
    type_raw: Seq<char>,
    gap: Seq<char>,
    doc: Seq<char>,
) -> Seq<char> {
    name + seq![':'] + example + seq!['('] + type_raw + seq![')'] + gap + seq!['-'] + doc
}

/// The description `name (type) gap - doc`, which gives no example, as one text.
pub open spec fn described_plainly(
    name: Seq<char>,
    type_raw: Seq<char>,
    gap: Seq<char>,
    doc: Seq<char>,
) -> Seq<char> {
    name + seq!['('] + type_raw + seq![')'] + gap + seq!['-'] + doc
}

/// From the stage that awaits the type annotation, the text `type) gap - doc`
/// closes the annotation and starts the documentation right after the `-`.
proof fn lemma_type_and_doc(
    name: Seq<char>,
    example: Seq<char>,
    type_raw: Seq<char>,
    gap: Seq<char>,
    doc: Seq<char>,
)
    requires
        !type_raw.contains(')'),
        !gap.contains('-'),
    ensures
        feed_text(
            Progress::Type { name, example, pending: Seq::empty() },
            type_raw + seq![')'] + gap + seq!['-'] + doc,
        ) == (Progress::Doc { name, example, type_raw, doc }),
{
    reveal_with_fuel(feed_text, 3);
    let tail = seq![')'] + gap + seq!['-'] + doc;
    let t = type_raw + seq![')'] + gap + seq!['-'] + doc;
    assert(t =~= type_raw + tail);
    lemma_position_after(type_raw, tail, ')');
    assert(position(tail, ')') == 0);
    assert(t.take(type_raw.len() as int) =~= type_raw);
    assert(Seq::<char>::empty() + type_raw =~= type_raw);
    assert(t.skip(type_raw.len() as int) =~= tail);
    let closed = seq![')'] + gap;
    assert(tail =~= closed + (seq!['-'] + doc));
    assert(!closed.contains('-')) by {
        if closed.contains('-') {
            let i = choose|i: int| 0 <= i < closed.len() && closed[i] == '-';
            assert(gap[i - 1] == '-');
            assert(gap.contains('-'));
        }
    }
    lemma_position_after(closed, seq!['-'] + doc, '-');
    assert(position(seq!['-'] + doc, '-') == 0);
    assert(tail.skip(closed.len() as int + 1) =~= doc);
}

/// A description of the shape `name: example (type) gap - doc`, read as one
/// text fragment, gives exactly its four parts: the name up to the first `:`,
/// the example up to the first `(` after it, the type annotation up to the
/// first `)` after that, and as documentation all that follows the first `-`
/// after the annotation.
pub proof fn lemma_whole_description(
    name: Seq<char>,
    example: Seq<char>,
    type_raw: Seq<char>,
    gap: Seq<char>,
    doc: Seq<char>,
)
    requires
        !name.contains(':'),
        !example.contains('('),
        !type_raw.contains(')'),
        !gap.contains('-'),
    ensures
        feed_text(fresh(), described(name, example, type_raw, gap, doc)) == (Progress::Doc {
            name,
            example,
            type_raw,
            doc,
        }),
        built(feed_text(fresh(), described(name, example, type_raw, gap, doc))) == Some(
            FieldModel {
                name: sanitized_name(name),
                example,
                field_type: type_text(type_raw),
                doc,
            },
        ),
{
    reveal_with_fuel(feed_text, 3);
    let t = described(name, example, type_raw, gap, doc);
    let after_type = type_raw + seq![')'] + gap + seq!['-'] + doc;
    let after_name = example + seq!['('] + after_type;
    assert(t =~= name + (seq![':'] + after_name));
    lemma_position_after(name, seq![':'] + after_name, ':');
    assert(position(seq![':'] + after_name, ':') == 0);
    assert(t.take(name.len() as int) =~= name);
    assert(Seq::<char>::empty() + name =~= name);
    assert(t.skip(name.len() as int + 1) =~= after_name);
    lemma_position_after(example, seq!['('] + after_type, '(');
    assert(position(seq!['('] + after_type, '(') == 0);
    assert(after_name =~= example + (seq!['('] + after_type));
    assert(after_name.take(example.len() as int) =~= example);
    assert(Seq::<char>::empty() + example =~= example);
    assert(after_name.skip(example.len() as int + 1) =~= after_type);
    lemma_type_and_doc(name, example, type_raw, gap, doc);
}

/// A description of the shape `name (type) gap - doc`, with no `:` anywhere,
/// gives the empty example.
pub proof fn lemma_no_example(
    name: Seq<char>,
    type_raw: Seq<char>,
    gap: Seq<char>,
    doc: Seq<char>,
)
    requires
        !described_plainly(name, type_raw, gap, doc).contains(':'),
        !name.contains('('),
        !type_raw.contains(')'),
        !gap.contains('-'),
    ensures
        feed_text(fresh(), described_plainly(name, type_raw, gap, doc)) == (Progress::Doc {
            name,
            example: Seq::empty(),
            type_raw,
            doc,
        }),
        built(feed_text(fresh(), described_plainly(name, type_raw, gap, doc))) == Some(
            FieldModel {
                name: sanitized_name(name),
                example: Seq::empty(),
                field_type: type_text(type_raw),
                doc,
            },
        ),
{
    reveal_with_fuel(feed_text, 3);
    let t = described_plainly(name, type_raw, gap, doc);
    let after_type = type_raw + seq![')'] + gap + seq!['-'] + doc;
    lemma_position_none(t, ':');
    assert(t =~= name + (seq!['('] + after_type));
    lemma_position_after(name, seq!['('] + after_type, '(');
    assert(position(seq!['('] + after_type, '(') == 0);
    assert(t.take(name.len() as int) =~= name);
    assert(Seq::<char>::empty() + name =~= name);
    assert(t.skip(name.len() as int + 1) =~= after_type);
    lemma_type_and_doc(name, Seq::empty(), type_raw, gap, doc);
}

/// An example value that arrives as inline code, between the text `name: lead`
/// and the text `rest`, is read as if it stood in one text fragment with
/// them, as long as it holds no `(`, which only a text fragment is scanned for.
pub proof fn lemma_code_example(
    name: Seq<char>,
    lead: Seq<char>,
    value: Seq<char>,
    rest: Seq<char>,
)
    requires
        !name.contains(':'),
        !lead.contains('('),
        !value.contains('('),
    ensures
        feed_text(feed_code(feed_text(fresh(), name + seq![':'] + lead), value), rest)
            == feed_text(fresh(), name + seq![':'] + lead + value + rest),
{
    reveal_with_fuel(feed_text, 3);
    let first = name + seq![':'] + lead;
    assert(first =~= name + (seq![':'] + lead));
    lemma_position_after(name, seq![':'] + lead, ':');
    assert(position(seq![':'] + lead, ':') == 0);
    assert(first.take(name.len() as int) =~= name);
    assert(Seq::<char>::empty() + name =~= name);
    assert(first.skip(name.len() as int + 1) =~= lead);
    lemma_position_none(lead, '(');
    assert(Seq::<char>::empty() + lead =~= lead);
    assert(feed_text(fresh(), first) == (Progress::Example { name, pending: lead }));

    let whole = name + seq![':'] + lead + value + rest;
    let tail = lead + value + rest;
    assert(whole =~= name + (seq![':'] + tail));
    lemma_position_after(name, seq![':'] + tail, ':');
    assert(position(seq![':'] + tail, ':') == 0);
    assert(whole.take(name.len() as int) =~= name);
    assert(whole.skip(name.len() as int + 1) =~= tail);
    assert(!(lead + value).contains('(')) by {
        if (lead + value).contains('(') {
            let i = choose|i: int| 0 <= i < (lead + value).len() && (lead + value)[i] == '(';
            if i < lead.len() {
                assert(lead.contains(lead[i]));
            } else {
                assert(value.contains(value[i - lead.len()]));
            }
        }
    }
    lemma_position_after(lead + value, rest, '(');
    lemma_position(rest, '(');
    let p = position(rest, '(');
    if p < rest.len() {
        assert(Seq::<char>::empty() + tail.take(lead.len() + value.len() + p) =~= lead + value
            + rest.take(p));
        assert(tail.skip(lead.len() + value.len() + p + 1) =~= rest.skip(p + 1));
    } else {
        assert(Seq::<char>::empty() + tail =~= lead + value + rest);
    }
}

/// Whether an event is a fragment of a field description.
pub open spec fn is_fragment(event: EventModel) -> bool {
    event is Text || event is Code
}

/// The builder after the fragments of one list item, taken in order.
pub open spec fn fed(progress: Progress, fragments: Seq<EventModel>) -> Progress
    decreases fragments.len(),
{
    if fragments.len() == 0 {
        progress
    } else {
        let before = fed(progress, fragments.drop_last());
        match fragments.last() {
            EventModel::Text(text) => feed_text(before, text),
            EventModel::Code(code) => feed_code(before, code),
            _ => before,
        }
    }
}

/// The schema after the builder of a list item is finished: with its field,
/// where it gives one, and unchanged where it gives none.
pub open spec fn settled(schema: SchemaModel, section: Seq<char>, progress: Progress)
    -> SchemaModel {
    match built(progress) {
        Some(field) => with_field(schema, section, field),
        None => schema,
    }
}

/// To drive over two sequences of events in turn is to drive over the two as one.
pub proof fn lemma_drive_concat(
    at: (StateModel, SchemaModel),
    first: Seq<EventModel>,
    second: Seq<EventModel>,
)
    ensures
        drive(at, first + second) == drive(drive(at, first), second),
    decreases second.len(),
{
    if second.len() == 0 {
        assert(first + second =~= first);
    } else {
        lemma_drive_concat(at, first, second.drop_last());
        assert((first + second).drop_last() =~= first + second.drop_last());
        assert((first + second).last() == second.last());
    }
}

/// To drive over one event is to advance by it.
pub proof fn lemma_drive_one(at: (StateModel, SchemaModel), event: EventModel)
    ensures
        drive(at, seq![event]) == advance(at, event),
{
    assert(seq![event].drop_last() =~= Seq::<EventModel>::empty());
    assert(drive(at, seq![event].drop_last()) == at);
}

/// Inside a list item the fragments go to the item's builder and to nothing else.
pub proof fn lemma_fragments_feed_builder(
    section: Seq<char>,
    progress: Progress,
    schema: SchemaModel,
    fragments: Seq<EventModel>,
)
    requires
        forall|i: int| 0 <= i < fragments.len() ==> is_fragment(#[trigger] fragments[i]),
    ensures
        drive((StateModel::InField(section, progress), schema), fragments) == (
            StateModel::InField(section, fed(progress, fragments)),
            schema,
        ),
    decreases fragments.len(),
{
    if fragments.len() > 0 {
        let before = fragments.drop_last();
        assert forall|i: int| 0 <= i < before.len() implies is_fragment(#[trigger] before[i]) by {
            assert(before[i] == fragments[i]);
        }
        lemma_fragments_feed_builder(section, progress, schema, before);
        assert(is_fragment(fragments[fragments.len() - 1]));
    }
}

/// A list item of an object section is read by itself: after it the driver
/// is between the items of the same section again, and the schema has the
/// field that the item's fragments give, or is unchanged where they give none.
pub proof fn lemma_item(section: Seq<char>, schema: SchemaModel, fragments: Seq<EventModel>)
    requires
        forall|i: int| 0 <= i < fragments.len() ==> is_fragment(#[trigger] fragments[i]),
    ensures
        drive(
            (StateModel::InFields(section), schema),
            seq![EventModel::ItemStart] + fragments + seq![EventModel::ItemEnd],
        ) == (StateModel::InFields(section), settled(schema, section, fed(fresh(), fragments))),
{
    let at = (StateModel::InFields(section), schema);
    lemma_drive_concat(at, seq![EventModel::ItemStart] + fragments, seq![EventModel::ItemEnd]);
    lemma_drive_concat(at, seq![EventModel::ItemStart], fragments);
    lemma_drive_one(at, EventModel::ItemStart);
    lemma_fragments_feed_builder(section, fresh(), schema, fragments);
    lemma_drive_one(
        (StateModel::InField(section, fed(fresh(), fragments)), schema),
        EventModel::ItemEnd,
    );
}

/// A list item whose description is incomplete is dropped: the events after
/// it are read as if the item had not been there, its siblings among them.
pub proof fn lemma_incomplete_item_dropped(
    section: Seq<char>,
    schema: SchemaModel,
    fragments: Seq<EventModel>,
    rest: Seq<EventModel>,
)
    requires
        forall|i: int| 0 <= i < fragments.len() ==> is_fragment(#[trigger] fragments[i]),
        built(fed(fresh(), fragments)) is None,
    ensures
        drive(
            (StateModel::InFields(section), schema),
            seq![EventModel::ItemStart] + fragments + seq![EventModel::ItemEnd] + rest,
        ) == drive((StateModel::InFields(section), schema), rest),
{
    let at = (StateModel::InFields(section), schema);
    lemma_item(section, schema, fragments);
    lemma_drive_concat(
        at,
        seq![EventModel::ItemStart] + fragments + seq![EventModel::ItemEnd],
        rest,
    );
}

/// The lists that `events` open, less those that they close.
pub open spec fn nesting(events: Seq<EventModel>) -> int
    decreases events.len(),
{
    if events.len() == 0 {
        0
    } else {
        nesting(events.drop_last()) + match events.last() {
            EventModel::ListStart => 1int,
            EventModel::ListEnd => -1int,
            _ => 0int,
        }
    }
}

/// Whether `events` stay `depth` lists deep or deeper, and inside the section:
/// they start no header, and at no point have they closed `depth` lists more
/// than they opened.
pub open spec fn stays_nested(events: Seq<EventModel>, depth: int) -> bool {
    &&& forall|i: int| 0 <= i < events.len() ==> !(#[trigger] events[i] is HeaderStart)
    &&& forall|k: int| 0 <= k <= events.len() ==> depth + nesting(#[trigger] events.take(k)) >= 1
}

/// While the driver skips nested lists, events that stay nested change the
/// depth and nothing else: no builder and no schema sees them.
pub proof fn lemma_skip(
    section: Seq<char>,
    depth: nat,
    schema: SchemaModel,
    events: Seq<EventModel>,
)
    requires
        stays_nested(events, depth as int),
    ensures
        depth + nesting(events) >= 1,
        drive((StateModel::SkipNestedList(section, depth), schema), events) == (
            StateModel::SkipNestedList(section, (depth + nesting(events)) as nat),
            schema,
        ),
    decreases events.len(),
{
    assert(events.take(events.len() as int) == events);
    if events.len() == 0 {
    } else {
        let before = events.drop_last();
        assert forall|i: int| 0 <= i < before.len() implies !(#[trigger] before[i]
            is HeaderStart) by {
            assert(before[i] == events[i]);
        }
        assert forall|k: int| 0 <= k <= before.len() implies depth + nesting(
            #[trigger] before.take(k),
        ) >= 1 by {
            assert(before.take(k) == events.take(k));
        }
        lemma_skip(section, depth, schema, before);
        assert(!(events[events.len() - 1] is HeaderStart));
    }
}

/// A list nested in a list item is skipped whole, however deep it goes: the
/// item's builder is finished when the list starts, the events inside the list
/// change nothing, and at the end of the list the driver is between the items
/// of the section again.
pub proof fn lemma_nested_list_skipped(
    section: Seq<char>,
    progress: Progress,
    schema: SchemaModel,
    inner: Seq<EventModel>,
)
    requires
        stays_nested(inner, 1),
        nesting(inner) == 0,
    ensures
        drive(
            (StateModel::InField(section, progress), schema),
            seq![EventModel::ListStart] + inner + seq![EventModel::ListEnd],
        ) == (StateModel::InFields(section), settled(schema, section, progress)),
{
    let at = (StateModel::InField(section, progress), schema);
    let after = settled(schema, section, progress);
    lemma_drive_concat(at, seq![EventModel::ListStart] + inner, seq![EventModel::ListEnd]);
    lemma_drive_concat(at, seq![EventModel::ListStart], inner);
    lemma_drive_one(at, EventModel::ListStart);
    lemma_skip(section, 1, after, inner);
    lemma_drive_one((StateModel::SkipNestedList(section, 1), after), EventModel::ListEnd);
}

/// Reading is a function of the events: the same events give the same schema,
/// and the same schema the same source text.
pub proof fn lemma_reading_repeats(first: Seq<EventModel>, second: Seq<EventModel>)
    requires
        first == second,
    ensures
        schema_of(first) == schema_of(second),
        generated(schema_of(first)) == generated(schema_of(second)),
{
}

} // verus!
