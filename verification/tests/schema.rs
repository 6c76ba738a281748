use api_blueprint_to_rust::field::Field;
use api_blueprint_to_rust::name_map::NameMap;
use api_blueprint_to_rust::schema::{Code, CodeStruct};

fn field(name: &str, field_type: &str) -> Field {
    Field {
        name: name.to_string(),
        example: String::new(),
        field_type: field_type.to_string(),
        doc: String::new(),
    }
}

fn names(record: &CodeStruct) -> Vec<String> {
    (0..record.len()).map(|i| record.field(i).0.to_string()).collect()
}

#[test]
fn name_map_keeps_the_order_of_names() {
    let mut map: NameMap<Field> = NameMap::new();
    assert_eq!(map.len(), 0);
    for name in ["m", "b", "z", "a", "ma", "B", ""] {
        map.insert(name.to_string(), field(name, "T"));
    }
    let order: Vec<&str> = (0..map.len()).map(|i| map.entry(i).0).collect();
    assert_eq!(order, ["", "B", "a", "b", "m", "ma", "z"]);
    for i in 0..map.len() {
        let (name, value) = map.entry(i);
        assert_eq!(name, value.name);
    }
}

#[test]
fn name_map_replaces_and_removes() {
    let mut map: NameMap<Field> = NameMap::new();
    map.insert("a".to_string(), field("a", "first"));
    map.insert("b".to_string(), field("b", "other"));
    map.insert("a".to_string(), field("a", "second"));
    assert_eq!(map.len(), 2);
    assert_eq!(map.get("a"), Some(&field("a", "second")));
    assert_eq!(map.get("b"), Some(&field("b", "other")));
    assert_eq!(map.get("c"), None);
    assert_eq!(map.remove("c"), None);
    assert_eq!(map.len(), 2);
    assert_eq!(map.remove("a"), Some(field("a", "second")));
    assert_eq!(map.len(), 1);
    assert_eq!(map.get("a"), None);
    assert_eq!(map.entry(0).0, "b");
}

#[test]
fn new_schema_is_empty() {
    let code = Code::new();
    assert_eq!(code.len(), 0);
    assert!(code.get("Attendee").is_none());
    assert_eq!(CodeStruct::new().len(), 0);
}

#[test]
fn fields_go_to_the_record_of_their_section() {
    let mut code = Code::new();
    code.add_struct_field("Order".to_string(), &field("id", "i64"));
    code.add_struct_field("Attendee".to_string(), &field("team", "Team"));
    code.add_struct_field("Attendee".to_string(), &field("id", "String"));
    code.add_struct_field("Order".to_string(), &field("cost", "i64"));
    assert_eq!(code.len(), 2);
    let (first, attendee) = code.record(0);
    assert_eq!(first, "Attendee");
    assert_eq!(names(attendee), ["id", "team"]);
    let (second, order) = code.record(1);
    assert_eq!(second, "Order");
    assert_eq!(names(order), ["cost", "id"]);
    assert_eq!(order.get("id"), Some(&field("id", "i64")));
    assert_eq!(attendee.get("id"), Some(&field("id", "String")));
    assert_eq!(attendee.get("cost"), None);
}

#[test]
fn later_field_of_the_same_name_wins() {
    let mut code = Code::new();
    code.add_struct_field("A".to_string(), &field("x", "first"));
    code.add_struct_field("A".to_string(), &field("y", "other"));
    code.add_struct_field("A".to_string(), &field("x", "second"));
    let record = code.get("A").unwrap();
    assert_eq!(record.len(), 2);
    assert_eq!(record.get("x"), Some(&field("x", "second")));
    assert_eq!(record.get("y"), Some(&field("y", "other")));

    let mut once = Code::new();
    once.add_struct_field("A".to_string(), &field("y", "other"));
    once.add_struct_field("A".to_string(), &field("x", "second"));
    assert_eq!(code, once);
}

#[test]
fn record_names_lose_spaces_and_hyphens() {
    let mut code = Code::new();
    code.add_struct_field("Attendee Team".to_string(), &field("a", "T"));
    code.add_struct_field("Attendee-Team".to_string(), &field("b", "T"));
    code.add_struct_field(" AttendeeTeam ".to_string(), &field("c", "T"));
    assert_eq!(code.len(), 1);
    let (name, record) = code.record(0);
    assert_eq!(name, "AttendeeTeam");
    assert_eq!(names(record), ["a", "b", "c"]);
    assert!(code.get("Attendee Team").is_none());
}

#[test]
fn generated_text_of_an_empty_schema() {
    assert_eq!(Code::new().generate(), "use serde::{Deserialize, Serialize};\n");
}

#[test]
fn generated_text() {
    let mut code = Code::new();
    code.add_struct_field("Order".to_string(), &field("id", "i64"));
    code.add_struct_field("Attendee".to_string(), &field("team", "Option<Team>"));
    code.add_struct_field("Attendee".to_string(), &field("r#type", "String"));
    code.add_struct_field("Attendee".to_string(), &field("id", "String"));
    let expected = "use serde::{Deserialize, Serialize};\n\
                    \n\
                    #[derive(Debug, Serialize, Deserialize)]\n\
                    struct Attendee {\n    \
                        id: String,\n    \
                        r#type: String,\n    \
                        team: Option<Team>,\n\
                    }\n\
                    \n\
                    #[derive(Debug, Serialize, Deserialize)]\n\
                    struct Order {\n    \
                        id: i64,\n\
                    }";
    assert_eq!(code.generate(), expected);
}
