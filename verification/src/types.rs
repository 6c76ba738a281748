//! The type expression resolver: an informal annotation such as
//! `array[enum[string]], optional` becomes a type of the generated code, and a
//! field's name becomes an identifier.

use crate::text::{
    chars_of, find_from, lemma_position, position, range_is, squeeze_range, squeezed, text_of,
    trim_range, trimmed,
};
use vstd::prelude::*;
use vstd::string::StringExecFns;

verus! {

/// A resolved type annotation, as mathematical value.
pub struct TypeModel {
    pub base: Seq<char>,
    pub is_array: bool,
    pub is_optional: bool,
}

/// A resolved type annotation: a base type, in an array or not, optional or not.
#[derive(Debug, Clone, PartialEq, Eq)]
pub struct TypeExpr {
    pub base: String,
    pub is_array: bool,
    pub is_optional: bool,
}

impl View for TypeExpr {
    type V = TypeModel;

    open spec fn view(&self) -> TypeModel {
        TypeModel { base: self.base@, is_array: self.is_array, is_optional: self.is_optional }
    }
}

/// What `opener` and a closing `]` enclose in `s`, where `s` begins with the
/// one and ends with the other.
pub open spec fn unwrapped(s: Seq<char>, opener: Seq<char>) -> Option<Seq<char>> {
    if s.len() > opener.len() && s.take(opener.len() as int) == opener && s.last() == ']' {
        Some(s.subrange(opener.len() as int, s.len() - 1))
    } else {
        None
    }
}

/// `s` without the wrapper that `opener` begins, where it has one.
pub open spec fn strip_wrapper(s: Seq<char>, opener: Seq<char>) -> Seq<char> {
    match unwrapped(s, opener) {
        Some(inner) => inner,
        None => s,
    }
}

/// The head segment of an annotation: what stands before the first comma,
/// without the white space around it.
pub open spec fn head_of(raw: Seq<char>) -> Seq<char> {
    trimmed(raw.take(position(raw, ',')))
}

/// The type name in the head segment: the head without an `array[..]` wrapper,
/// then without an `enum[..]` wrapper, then without spaces and hyphens.
pub open spec fn element_name(raw: Seq<char>) -> Seq<char> {
    squeezed(strip_wrapper(strip_wrapper(head_of(raw), "array["@), "enum["@))
}

/// The type that stands for a type name of the documentation. A name outside
/// the lexicon is taken for the name of another record and kept; no name at all
/// is a string.
pub open spec fn base_type(name: Seq<char>) -> Seq<char> {
    if name.len() == 0 || name == "string"@ || name == "enum"@ || name == "object"@ || name
        == "array"@ || name == "datetime"@ {
        "String"@
    } else if name == "boolean"@ {
        "bool"@
    } else if name == "number"@ {
        "i64"@
    } else {
        name
    }
}

/// Whether a modifier, already trimmed, makes the field optional.
pub open spec fn is_optional_word(word: Seq<char>) -> bool {
    word == "optional"@ || word == "nullable"@
}

/// Whether one of the comma-separated segments of `s` makes the field optional.
/// Other segments, `required` among them, change nothing.
pub open spec fn marks_optional(s: Seq<char>) -> bool
    decreases s.len(),
    via marks_optional_terminates
{
    let comma = position(s, ',');
    is_optional_word(trimmed(s.take(comma))) || (comma < s.len() && marks_optional(
        s.skip(comma + 1),
    ))
}

#[via_fn]
proof fn marks_optional_terminates(s: Seq<char>) {
    lemma_position(s, ',');
}

/// The meaning of an annotation: the head segment gives the base type and
/// whether it is an array, the segments after the first comma whether it is
/// optional.
pub open spec fn resolved(raw: Seq<char>) -> TypeModel {
    let comma = position(raw, ',');
    TypeModel {
        base: base_type(element_name(raw)),
        is_array: unwrapped(head_of(raw), "array["@) is Some,
        is_optional: comma < raw.len() && marks_optional(raw.skip(comma + 1)),
    }
}

/// The type expression as the generated code writes it: the base type, inside
/// `Vec<..>` for an array, and that inside `Option<..>` where it is optional.
pub open spec fn rendered(t: TypeModel) -> Seq<char> {
    let inner = if t.is_array {
        "Vec<"@ + t.base + ">"@
    } else {
        t.base
    };
    if t.is_optional {
        "Option<"@ + inner + ">"@
    } else {
        inner
    }
}

/// The type of the generated code for the annotation `raw`.
pub open spec fn type_text(raw: Seq<char>) -> Seq<char> {
    rendered(resolved(raw))
}

/// `s` with an underscore in place of every hyphen.
pub open spec fn underscored(s: Seq<char>) -> Seq<char> {
    s.map_values(|c: char| if c == '-' { '_' } else { c })
}

/// The identifier for a field's name: trimmed, the reserved word `type`
/// escaped, every hyphen an underscore, and nothing else changed.
pub open spec fn sanitized_name(raw: Seq<char>) -> Seq<char> {
    let name = trimmed(raw);
    if name == "type"@ {
        "r#type"@
    } else {
        underscored(name)
    }
}

/// The bounds of what `opener` and a closing `]` enclose in `v[from..to]`, or
/// those of `v[from..to]` itself where it has no such wrapper.
fn strip_range(v: &Vec<char>, from: usize, to: usize, opener: &str) -> (r: (bool, usize, usize))
    requires
        from <= to <= v.len(),
    ensures
        from <= r.1 <= r.2 <= to,
        r.0 == (unwrapped(v@.subrange(from as int, to as int), opener@) is Some),
        v@.subrange(r.1 as int, r.2 as int) == strip_wrapper(
            v@.subrange(from as int, to as int),
            opener@,
        ),
{
    let ghost s = v@.subrange(from as int, to as int);
    let n = opener.unicode_len();
    if to - from > n && v[to - 1] == ']' && range_is(v, from, from + n, opener) {
        assert(s.take(n as int) == v@.subrange(from as int, from + n));
        assert(s.subrange(n as int, s.len() - 1) == v@.subrange(from + n, to - 1));
        (true, from + n, to - 1)
    } else {
        proof {
            if to - from > n {
                assert(s.take(n as int) == v@.subrange(from as int, from + n));
            }
        }
        (false, from, to)
    }
}

/// The type that stands for the type name `name`.
fn lookup_base(name: &Vec<char>) -> (base: String)
    ensures
        base@ == base_type(name@),
{
    let n = name.len();
    assert(name@.subrange(0, n as int) == name@);
    if n == 0 || range_is(name, 0, n, "string") || range_is(name, 0, n, "enum") || range_is(
        name,
        0,
        n,
        "object",
    ) || range_is(name, 0, n, "array") || range_is(name, 0, n, "datetime") {
        String::from_str("String")
    } else if range_is(name, 0, n, "boolean") {
        String::from_str("bool")
    } else if range_is(name, 0, n, "number") {
        String::from_str("i64")
    } else {
        text_of(name, 0, n)
    }
}

/// Whether one of the comma-separated segments of `v[from..]` makes the field
/// optional.
fn scan_modifiers(v: &Vec<char>, from: usize) -> (found: bool)
    requires
        from <= v.len(),
    ensures
        found == marks_optional(v@.skip(from as int)),
{
    let mut start: usize = from;
    let mut found = false;
    loop
        invariant
            from <= start <= v.len(),
            marks_optional(v@.skip(from as int)) == (found || marks_optional(
                v@.skip(start as int),
            )),
        ensures
            found == marks_optional(v@.skip(from as int)),
        decreases v.len() - start,
    {
        let ghost rest = v@.skip(start as int);
        let comma = find_from(v, start, ',');
        let (a, b) = trim_range(v, start, comma);
        assert(v@.subrange(start as int, comma as int) == rest.take(comma - start));
        if range_is(v, a, b, "optional") || range_is(v, a, b, "nullable") {
            found = true;
        }
        if comma == v.len() {
            break;
        }
        assert(v@.skip(comma + 1) == rest.skip(comma - start + 1));
        start = comma + 1;
    }
    found
}

/// Resolves a raw type annotation.
pub fn resolve_type(raw: &str) -> (t: TypeExpr)
    ensures
        t@ == resolved(raw@),
{
    let v = chars_of(raw);
    let comma = find_from(&v, 0, ',');
    assert(v@.skip(0) == v@);
    assert(v@.subrange(0, comma as int) == raw@.take(comma as int));
    let (a, b) = trim_range(&v, 0, comma);
    let (is_array, a1, b1) = strip_range(&v, a, b, "array[");
    let (_is_enum, a2, b2) = strip_range(&v, a1, b1, "enum[");
    let name = squeeze_range(&v, a2, b2);
    let base = lookup_base(&name);
    let is_optional = comma < v.len() && scan_modifiers(&v, comma + 1);
    TypeExpr { base, is_array, is_optional }
}

impl TypeExpr {
    /// The type expression as the generated code writes it.
    pub fn render(&self) -> (s: String)
        ensures
            s@ == rendered(self@),
    {
        let mut inner = if self.is_array {
            String::from_str("Vec<").concat(self.base.as_str()).concat(">")
        } else {
            self.base.clone()
        };
        if self.is_optional {
            inner = String::from_str("Option<").concat(inner.as_str()).concat(">");
        }
        inner
    }
}

/// The type of the generated code for a raw type annotation.
pub fn fix_field_type(field_type: String) -> (r: String)
    ensures
        r@ == type_text(field_type@),
{
    resolve_type(field_type.as_str()).render()
}

/// The identifier for a field's name.
pub fn fix_field_name(field_name: String) -> (r: String)
    ensures
        r@ == sanitized_name(field_name@),
{
    let v = chars_of(field_name.as_str());
    assert(v@.subrange(0, v.len() as int) == v@);
    let (a, b) = trim_range(&v, 0, v.len());
    if range_is(&v, a, b, "type") {
        return String::from_str("r#type");
    }
    let ghost name = v@.subrange(a as int, b as int);
    let mut r = String::new();
    let mut i: usize = a;
    while i < b
        invariant
            a <= i <= b <= v.len(),
            name == v@.subrange(a as int, b as int),
            r@ == underscored(name.take(i - a)),
        decreases b - i,
    {
        let c = v[i];
        r.push(if c == '-' { '_' } else { c });
        assert(name.take(i - a + 1) == name.take(i - a).push(c));
        assert(underscored(name.take(i - a + 1)) =~= underscored(name.take(i - a)).push(
            if c == '-' { '_' } else { c },
        ));
        i += 1;
    }
    assert(name.take(b - a) == name);
    r
}

} // verus!
