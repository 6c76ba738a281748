use api_blueprint_to_rust::text::{is_space_char, rank_of, squeeze, Rank};
use api_blueprint_to_rust::types::{fix_field_name, fix_field_type, resolve_type, TypeExpr};

fn resolved(raw: &str) -> String {
    fix_field_type(raw.to_string())
}

fn expr(base: &str, is_array: bool, is_optional: bool) -> TypeExpr {
    TypeExpr { base: base.to_string(), is_array, is_optional }
}

#[test]
fn documented_annotations() {
    assert_eq!(resolved("array[Answer], optional"), "Option<Vec<Answer>>");
    assert_eq!(resolved("boolean"), "bool");
    assert_eq!(resolved("number, required"), "i64");
    assert_eq!(resolved("array[enum[string]], optional"), "Option<Vec<String>>");
}

#[test]
fn resolve_type_gives_the_parts() {
    assert_eq!(resolve_type("array[Answer], optional"), expr("Answer", true, true));
    assert_eq!(resolve_type("boolean"), expr("bool", false, false));
    assert_eq!(resolve_type("number, required"), expr("i64", false, false));
    assert_eq!(resolve_type("array[enum[string]], optional"), expr("String", true, true));
    assert_eq!(resolve_type("enum[Status], nullable"), expr("Status", false, true));
    assert_eq!(resolve_type(""), expr("String", false, false));
}

#[test]
fn render_wraps_array_then_optional() {
    assert_eq!(expr("T", false, false).render(), "T");
    assert_eq!(expr("T", true, false).render(), "Vec<T>");
    assert_eq!(expr("T", false, true).render(), "Option<T>");
    assert_eq!(expr("T", true, true).render(), "Option<Vec<T>>");
}

#[test]
fn lexicon() {
    assert_eq!(resolved("string"), "String");
    assert_eq!(resolved("enum"), "String");
    assert_eq!(resolved("object"), "String");
    assert_eq!(resolved("array"), "String");
    assert_eq!(resolved("datetime"), "String");
    assert_eq!(resolved("boolean"), "bool");
    assert_eq!(resolved("number"), "i64");
    assert_eq!(resolved("Answer"), "Answer");
    assert_eq!(resolved("String"), "String");
    assert_eq!(resolved("strings"), "strings");
    assert_eq!(resolved("Boolean"), "Boolean");
}

#[test]
fn empty_head_is_a_string() {
    assert_eq!(resolved(""), "String");
    assert_eq!(resolved("   "), "String");
    assert_eq!(resolved("array[]"), "Vec<String>");
    assert_eq!(resolved("enum[]"), "String");
    assert_eq!(resolved("array[enum[]]"), "Vec<String>");
    assert_eq!(resolved(", optional"), "Option<String>");
    assert_eq!(resolved(" - "), "String");
}

#[test]
fn head_is_trimmed_before_the_wrappers_are_sought() {
    assert_eq!(resolved("  array[Answer]  "), "Vec<Answer>");
    assert_eq!(resolved("\tenum[string]\n, optional"), "Option<String>");
    assert_eq!(resolved("\u{3000}boolean\u{a0}"), "bool");
    assert_eq!(resolved("array[ Answer ]"), "Vec<Answer>");
}

#[test]
fn wrappers_need_both_ends() {
    assert_eq!(resolved("array[Answer"), "array[Answer");
    assert_eq!(resolved("array["), "array[");
    assert_eq!(resolved("Answer]"), "Answer]");
    assert_eq!(resolved("enum[string"), "enum[string");
    assert_eq!(resolved("array[Answer]x"), "array[Answer]x");
    assert_eq!(resolved("array[enum[string]"), "Vec<enum[string>");
    assert_eq!(resolved("enum[array[Answer]]"), "array[Answer]");
    assert_eq!(resolved("array[array[number]]"), "Vec<array[number]>");
}

#[test]
fn spaces_and_hyphens_leave_the_type_name() {
    assert_eq!(resolved("Attendee Assigned Unit"), "AttendeeAssignedUnit");
    assert_eq!(resolved("date-time"), "String");
    assert_eq!(resolved("cost-center id"), "costcenterid");
    assert_eq!(resolved("array[a - b]"), "Vec<ab>");
    assert_eq!(resolved("a\tb"), "a\tb");
}

#[test]
fn modifiers() {
    assert_eq!(resolved("string, optional"), "Option<String>");
    assert_eq!(resolved("string, nullable"), "Option<String>");
    assert_eq!(resolved("string, optional, nullable"), "Option<String>");
    assert_eq!(resolved("string,required"), "String");
    assert_eq!(resolved("string,  optional  "), "Option<String>");
    assert_eq!(resolved("string,required,\u{2003}nullable\u{2028}"), "Option<String>");
    assert_eq!(resolved("string, Optional"), "String");
    assert_eq!(resolved("string, optional nullable"), "String");
    assert_eq!(resolved("string, opt-ional"), "String");
    assert_eq!(resolved("string, something, else"), "String");
    assert_eq!(resolved("string,,,optional,"), "Option<String>");
    assert_eq!(resolved("string,"), "String");
}

#[test]
fn a_modifier_in_the_head_is_a_type_name() {
    assert_eq!(resolved("optional"), "optional");
    assert_eq!(resolved("nullable, required"), "nullable");
}

#[test]
fn field_names() {
    assert_eq!(fix_field_name("type".to_string()), "r#type");
    assert_eq!(fix_field_name("  type\t".to_string()), "r#type");
    assert_eq!(fix_field_name("datetime-tz-utc".to_string()), "datetime_tz_utc");
    assert_eq!(fix_field_name(" id ".to_string()), "id");
    assert_eq!(fix_field_name("".to_string()), "");
    assert_eq!(fix_field_name(" \n ".to_string()), "");
    assert_eq!(fix_field_name("first name".to_string()), "first name");
    assert_eq!(fix_field_name("types".to_string()), "types");
    assert_eq!(fix_field_name("Type".to_string()), "Type");
    assert_eq!(fix_field_name("ty-pe".to_string()), "ty_pe");
    assert_eq!(fix_field_name("-".to_string()), "_");
    assert_eq!(fix_field_name("\u{a0}a-b\u{2009}".to_string()), "a_b");
}

#[test]
fn hyphens_in_names_and_in_types_differ() {
    assert_eq!(fix_field_name("a-b".to_string()), "a_b");
    assert_eq!(fix_field_type("a-b".to_string()), "ab");
    assert_eq!(squeeze("a-b c"), "abc");
}

#[test]
fn white_space_is_what_std_trims() {
    let mut code: u32 = 0;
    while code <= 0x10FFFF {
        if let Some(c) = char::from_u32(code) {
            assert_eq!(is_space_char(c), c.is_whitespace(), "U+{:04X}", code);
        }
        code += 1;
    }
}

#[test]
fn names_are_ordered_as_strings_are() {
    let names = [
        "", "a", "A", "ab", "abc", "abd", "b", "B", "Z", "_", "é", "z", "zz", "\u{10000}", "\u{ffff}",
        "a\u{0}", " ", "a b", "a-b",
    ];
    for a in names.iter() {
        for b in names.iter() {
            let expected = if a < b {
                Rank::Before
            } else if a == b {
                Rank::Same
            } else {
                Rank::After
            };
            assert_eq!(rank_of(a, b), expected, "{:?} {:?}", a, b);
        }
    }
}
