use api_blueprint_to_rust::driver::{parse_document, parse_events, step, DocEvent, DriverState};
use api_blueprint_to_rust::field::{Field, FieldBuilder};
use api_blueprint_to_rust::schema::Code;

fn text(s: &str) -> DocEvent {
    DocEvent::Text(s.to_string())
}

fn code(s: &str) -> DocEvent {
    DocEvent::Code(s.to_string())
}

fn field(name: &str, example: &str, field_type: &str, doc: &str) -> Field {
    Field {
        name: name.to_string(),
        example: example.to_string(),
        field_type: field_type.to_string(),
        doc: doc.to_string(),
    }
}

fn fields(section: &str) -> DriverState {
    DriverState::InFields(section.to_string())
}

fn in_field(section: &str, fragments: &[&str]) -> DriverState {
    let mut builder = FieldBuilder::new();
    for fragment in fragments {
        builder.add_text(fragment.to_string());
    }
    DriverState::InField(section.to_string(), builder)
}

fn skip(section: &str, depth: usize) -> DriverState {
    DriverState::SkipNestedList(section.to_string(), depth)
}

fn all_events() -> Vec<DocEvent> {
    vec![
        DocEvent::HeaderStart,
        DocEvent::HeaderEnd,
        DocEvent::ListStart,
        DocEvent::ListEnd,
        DocEvent::ItemStart,
        DocEvent::ItemEnd,
        text("plain"),
        text("Name (object)"),
        code("code"),
        DocEvent::Other,
    ]
}

fn schema(entries: &[(&str, Field)]) -> Code {
    let mut code = Code::new();
    for (section, field) in entries {
        code.add_struct_field(section.to_string(), field);
    }
    code
}

#[test]
fn header_start_enters_a_header_from_any_state() {
    let states = [
        DriverState::Idle,
        DriverState::InHeader("x".to_string()),
        fields("A"),
        in_field("A", &["a: b"]),
        in_field("A", &["a: b (c) - d"]),
        skip("A", 3),
    ];
    for state in states {
        assert_eq!(
            step(state, &DocEvent::HeaderStart),
            (DriverState::InHeader(String::new()), None)
        );
    }
}

#[test]
fn idle_ignores_everything_but_a_header() {
    for event in all_events() {
        if event != DocEvent::HeaderStart {
            assert_eq!(step(DriverState::Idle, &event), (DriverState::Idle, None));
        }
    }
}

#[test]
fn header_transitions() {
    let header = || DriverState::InHeader("Pre".to_string());
    assert_eq!(step(header(), &DocEvent::HeaderEnd), (DriverState::Idle, None));
    assert_eq!(
        step(header(), &code("Attendee")),
        (DriverState::InHeader("Attendee".to_string()), None)
    );
    assert_eq!(step(header(), &text("Attendee")), (header(), None));
    assert_eq!(step(header(), &text("Attendee (object) ")), (header(), None));
    assert_eq!(step(header(), &text("(object)")), (header(), None));
    assert_eq!(step(header(), &text(" (object)")), (fields("Pre"), None));
    assert_eq!(
        step(header(), &text(" Attendee Team (object)")),
        (fields("Pre Attendee Team"), None)
    );
    assert_eq!(
        step(header(), &text("A (object) (object)")),
        (fields("PreA (object)"), None)
    );
    for event in [
        DocEvent::ListStart,
        DocEvent::ListEnd,
        DocEvent::ItemStart,
        DocEvent::ItemEnd,
        DocEvent::Other,
    ] {
        assert_eq!(step(header(), &event), (header(), None));
    }
}

#[test]
fn fields_transitions() {
    assert_eq!(
        step(fields("A"), &DocEvent::ItemStart),
        (DriverState::InField("A".to_string(), FieldBuilder::new()), None)
    );
    for event in all_events() {
        if event != DocEvent::HeaderStart && event != DocEvent::ItemStart {
            assert_eq!(step(fields("A"), &event), (fields("A"), None));
        }
    }
}

#[test]
fn field_transitions() {
    assert_eq!(
        step(in_field("A", &["a: b "]), &text("(c) - d")),
        (in_field("A", &["a: b (c) - d"]), None)
    );
    let mut builder = FieldBuilder::new();
    builder.add_text("a: ".to_string());
    builder.add_code("(b)".to_string());
    assert_eq!(
        step(in_field("A", &["a: "]), &code("(b)")),
        (DriverState::InField("A".to_string(), builder), None)
    );
    let done = Some(("A".to_string(), field("a", " b ", "c", " d")));
    assert_eq!(
        step(in_field("A", &["a: b (c) - d"]), &DocEvent::ItemEnd),
        (fields("A"), done.clone())
    );
    assert_eq!(
        step(in_field("A", &["a: b (c) - d"]), &DocEvent::ListStart),
        (skip("A", 1), done)
    );
    assert_eq!(step(in_field("A", &["a: b"]), &DocEvent::ItemEnd), (fields("A"), None));
    assert_eq!(step(in_field("A", &["a: b"]), &DocEvent::ListStart), (skip("A", 1), None));
    for event in [
        DocEvent::HeaderEnd,
        DocEvent::ListEnd,
        DocEvent::ItemStart,
        DocEvent::Other,
    ] {
        assert_eq!(step(in_field("A", &["a: b"]), &event), (in_field("A", &["a: b"]), None));
    }
}

#[test]
fn skip_transitions() {
    assert_eq!(step(skip("A", 1), &DocEvent::ListStart), (skip("A", 2), None));
    assert_eq!(step(skip("A", 2), &DocEvent::ListStart), (skip("A", 3), None));
    assert_eq!(step(skip("A", 3), &DocEvent::ListEnd), (skip("A", 2), None));
    assert_eq!(step(skip("A", 2), &DocEvent::ListEnd), (skip("A", 1), None));
    assert_eq!(step(skip("A", 1), &DocEvent::ListEnd), (fields("A"), None));
    for event in all_events() {
        let passes = matches!(
            event,
            DocEvent::HeaderStart | DocEvent::ListStart | DocEvent::ListEnd
        );
        if !passes {
            assert_eq!(step(skip("A", 2), &event), (skip("A", 2), None));
        }
    }
}

#[test]
fn no_events_no_records() {
    assert_eq!(parse_events(&Vec::new()), Code::new());
}

#[test]
fn items_outside_an_object_section_are_not_read() {
    let events = vec![
        DocEvent::ListStart,
        DocEvent::ItemStart,
        text("a: b (c) - d"),
        DocEvent::ItemEnd,
        DocEvent::ListEnd,
        DocEvent::HeaderStart,
        text("Not an object"),
        DocEvent::HeaderEnd,
        DocEvent::ListStart,
        DocEvent::ItemStart,
        text("a: b (c) - d"),
        DocEvent::ItemEnd,
        DocEvent::ListEnd,
    ];
    assert_eq!(parse_events(&events), Code::new());
}

#[test]
fn incomplete_item_is_dropped_and_siblings_are_read() {
    let events = vec![
        DocEvent::HeaderStart,
        text("Attendee (object)"),
        DocEvent::HeaderEnd,
        DocEvent::ListStart,
        DocEvent::ItemStart,
        text("id: 12345 (string) - Attendee ID"),
        DocEvent::ItemEnd,
        DocEvent::ItemStart,
        text("no parenthesis here"),
        DocEvent::ItemEnd,
        DocEvent::ItemStart,
        text("team (Team, nullable) - The team"),
        DocEvent::ItemEnd,
        DocEvent::ListEnd,
    ];
    let expected = schema(&[
        ("Attendee", field("id", " 12345 ", "String", " Attendee ID")),
        ("Attendee", field("team", "", "Option<Team>", " The team")),
    ]);
    let code = parse_events(&events);
    assert_eq!(code, expected);
    assert_eq!(code.get("Attendee").unwrap().len(), 2);

    let mut without: Vec<DocEvent> = events.clone();
    without.drain(7..10);
    assert_eq!(parse_events(&without), expected);
}

#[test]
fn nested_list_is_skipped_at_every_depth() {
    let events = vec![
        DocEvent::HeaderStart,
        text("Attendee (object)"),
        DocEvent::HeaderEnd,
        DocEvent::ListStart,
        DocEvent::ItemStart,
        text("status (enum[string]) - The status"),
        DocEvent::ListStart,
        DocEvent::ItemStart,
        text("attending: 1 (string) - Is attending"),
        DocEvent::ListStart,
        DocEvent::ItemStart,
        text("deeper: 2 (string) - Deeper still"),
        code("x"),
        DocEvent::ItemEnd,
        DocEvent::ListEnd,
        DocEvent::ItemEnd,
        DocEvent::ItemStart,
        text("absent: 3 (string) - Is not"),
        DocEvent::ItemEnd,
        DocEvent::ListEnd,
        text(" trailing text"),
        DocEvent::ItemEnd,
        DocEvent::ItemStart,
        text("id: 12345 (string) - Attendee ID"),
        DocEvent::ItemEnd,
        DocEvent::ListEnd,
    ];
    let expected = schema(&[
        ("Attendee", field("status", "", "String", " The status")),
        ("Attendee", field("id", " 12345 ", "String", " Attendee ID")),
    ]);
    assert_eq!(parse_events(&events), expected);
}

#[test]
fn item_is_finished_when_a_nested_list_starts() {
    let events = vec![
        DocEvent::HeaderStart,
        text("A (object)"),
        DocEvent::HeaderEnd,
        DocEvent::ItemStart,
        text("x: 1 (number"),
        DocEvent::ListStart,
        DocEvent::ListEnd,
        text(") - late"),
        DocEvent::ItemEnd,
    ];
    assert_eq!(parse_events(&events), Code::new());
}

#[test]
fn header_name_takes_the_code_before_the_text() {
    let events = vec![
        DocEvent::HeaderStart,
        code("first"),
        code("Attendee"),
        text(" Team (object)"),
        text("ignored"),
        DocEvent::HeaderEnd,
        DocEvent::ItemStart,
        text("id (number) - The id"),
        DocEvent::ItemEnd,
    ];
    let code = parse_events(&events);
    assert_eq!(code.len(), 1);
    assert_eq!(code.record(0).0, "AttendeeTeam");
}

#[test]
fn reading_twice_gives_the_same() {
    let document = "# Attendee (object)\n\n- id: 12345 (string) - Attendee ID\n- team (Team, nullable) - The team\n";
    let first = parse_document(document);
    let second = parse_document(document);
    assert_eq!(first, second);
    assert_eq!(first.generate(), second.generate());
    assert_eq!(first.generate().as_bytes(), second.generate().as_bytes());
}

#[test]
fn markdown_document() {
    let document = "\
# Group Attendees

Some introduction, with a list:

- not: a (field) - of anything

## Attendee (object)

- id: 12345 (string) - Attendee ID
- created: `2018-05-12T02:00:00Z` (datetime) - When the attendee was created
- an item without any type
- team (Attendee Team, nullable) - The team
    - name (string) - skipped
        - deeper (string) - skipped too
    - other (string) - skipped as well
- cost-total (number, required) - The total
- answers (array[Answer], optional) - The answers

## `Order` (object)

- type: `sale` (enum[string]) - The kind of order

## Not an object

- ignored: 1 (number) - Still in the section before
";
    let code = parse_document(document);
    let expected = schema(&[
        ("Attendee", field("id", " 12345 ", "String", " Attendee ID")),
        (
            "Attendee",
            field(
                "created",
                " 2018-05-12T02:00:00Z ",
                "String",
                " When the attendee was created",
            ),
        ),
        ("Attendee", field("team", "", "Option<AttendeeTeam>", " The team")),
        ("Attendee", field("cost_total", "", "i64", " The total")),
        ("Attendee", field("answers", "", "Option<Vec<Answer>>", " The answers")),
        ("Order", field("r#type", " sale ", "String", " The kind of order")),
    ]);
    assert_eq!(code, expected);
    let text = "use serde::{Deserialize, Serialize};\n\
                \n\
                #[derive(Debug, Serialize, Deserialize)]\n\
                struct Attendee {\n    \
                    answers: Option<Vec<Answer>>,\n    \
                    cost_total: i64,\n    \
                    created: String,\n    \
                    id: String,\n    \
                    team: Option<AttendeeTeam>,\n\
                }\n\
                \n\
                #[derive(Debug, Serialize, Deserialize)]\n\
                struct Order {\n    \
                    r#type: String,\n\
                }";
    assert_eq!(code.generate(), text);
}
