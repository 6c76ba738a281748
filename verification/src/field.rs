//! The field description parser: fragments of one list item, read left to right
//! into a name, an example value, a raw type annotation and a documentation text.

use crate::text::{append_range, chars_of, find_from, position, text_of};
use crate::types::{fix_field_name, fix_field_type, sanitized_name, type_text};
use vstd::prelude::*;
use vstd::string::StringExecFns;

verus! {

/// A finished field, as mathematical value.
pub struct FieldModel {
    pub name: Seq<char>,
    pub example: Seq<char>,
    pub field_type: Seq<char>,
    pub doc: Seq<char>,
}

/// A finished field: its identifier, its example value as written, its type in
/// the generated code, and its documentation.
#[derive(Debug, PartialEq, Eq)]
pub struct Field {
    pub name: String,
    pub example: String,
    pub field_type: String,
    pub doc: String,
}

impl View for Field {
    type V = FieldModel;

    open spec fn view(&self) -> FieldModel {
        FieldModel {
            name: self.name@,
            example: self.example@,
            field_type: self.field_type@,
            doc: self.doc@,
        }
    }
}

impl Clone for Field {
    fn clone(&self) -> (r: Field)
        ensures
            r@ == self@,
    {
        Field {
            name: self.name.clone(),
            example: self.example.clone(),
            field_type: self.field_type.clone(),
            doc: self.doc.clone(),
        }
    }
}

/// How far a field description has been read. Each part, once set, is never
/// changed again; `pending` is text that no delimiter has closed yet.
pub enum Progress {
    /// Nothing is set: the text read so far may still become the name.
    Name { pending: Seq<char> },
    /// The name is set: the text read so far may still become the example.
    Example { name: Seq<char>, pending: Seq<char> },
    /// Name and example are set: the text read so far belongs to the type annotation.
    Type { name: Seq<char>, example: Seq<char>, pending: Seq<char> },
    /// The type annotation is closed and the `-` before the documentation is
    /// awaited: the text read so far will fall when it comes.
    Separator { name: Seq<char>, example: Seq<char>, type_raw: Seq<char>, pending: Seq<char> },
    /// The documentation has started and takes every further fragment.
    Doc { name: Seq<char>, example: Seq<char>, type_raw: Seq<char>, doc: Seq<char> },
}

impl Progress {
    /// The number of parts that are still to be set.
    pub open spec fn remaining(self) -> nat {
        match self {
            Progress::Name { .. } => 4,
            Progress::Example { .. } => 3,
            Progress::Type { .. } => 2,
            Progress::Separator { .. } => 1,
            Progress::Doc { .. } => 0,
        }
    }

    /// The name, once a `:` or a `(` has closed it.
    pub open spec fn name(self) -> Option<Seq<char>> {
        match self {
            Progress::Name { .. } => None,
            Progress::Example { name, .. } => Some(name),
            Progress::Type { name, .. } => Some(name),
            Progress::Separator { name, .. } => Some(name),
            Progress::Doc { name, .. } => Some(name),
        }
    }

    /// The example value, once a `(` has closed it.
    pub open spec fn example(self) -> Option<Seq<char>> {
        match self {
            Progress::Name { .. } => None,
            Progress::Example { .. } => None,
            Progress::Type { example, .. } => Some(example),
            Progress::Separator { example, .. } => Some(example),
            Progress::Doc { example, .. } => Some(example),
        }
    }

    /// The raw type annotation, once a `)` has closed it.
    pub open spec fn type_raw(self) -> Option<Seq<char>> {
        match self {
            Progress::Separator { type_raw, .. } => Some(type_raw),
            Progress::Doc { type_raw, .. } => Some(type_raw),
            _ => None,
        }
    }

    /// The documentation, once a `-` has started it.
    pub open spec fn doc(self) -> Option<Seq<char>> {
        match self {
            Progress::Doc { doc, .. } => Some(doc),
            _ => None,
        }
    }
}

/// The state after one text fragment. The fragment is scanned once, left to
/// right: each delimiter that the current stage awaits closes that stage, is
/// dropped (the `)` is left in place, and falls with everything else before
/// the `-`), and hands the rest of the fragment to the next stage. What no
/// delimiter closes is kept as pending text, which the `-` discards and every
/// other delimiter puts before the text that it closes.
pub open spec fn feed_text(p: Progress, t: Seq<char>) -> Progress
    decreases p.remaining(),
{
    match p {
        Progress::Name { pending } => {
            let colon = position(t, ':');
            let paren = position(t, '(');
            if colon < t.len() {
                feed_text(
                    Progress::Example { name: pending + t.take(colon), pending: Seq::empty() },
                    t.skip(colon + 1),
                )
            } else if paren < t.len() {
                feed_text(
                    Progress::Type {
                        name: pending + t.take(paren),
                        example: Seq::empty(),
                        pending: Seq::empty(),
                    },
                    t.skip(paren + 1),
                )
            } else {
                Progress::Name { pending: pending + t }
            }
        },
        Progress::Example { name, pending } => {
            let paren = position(t, '(');
            if paren < t.len() {
                feed_text(
                    Progress::Type {
                        name,
                        example: pending + t.take(paren),
                        pending: Seq::empty(),
                    },
                    t.skip(paren + 1),
                )
            } else {
                Progress::Example { name, pending: pending + t }
            }
        },
        Progress::Type { name, example, pending } => {
            let close = position(t, ')');
            if close < t.len() {
                feed_text(
                    Progress::Separator {
                        name,
                        example,
                        type_raw: pending + t.take(close),
                        pending: Seq::empty(),
                    },
                    t.skip(close),
                )
            } else {
                Progress::Type { name, example, pending: pending + t }
            }
        },
        Progress::Separator { name, example, type_raw, pending } => {
            let dash = position(t, '-');
            if dash < t.len() {
                Progress::Doc { name, example, type_raw, doc: t.skip(dash + 1) }
            } else {
                Progress::Separator { name, example, type_raw, pending: pending + t }
            }
        },
        Progress::Doc { name, example, type_raw, doc } => Progress::Doc {
            name,
            example,
            type_raw,
            doc: doc + t,
        },
    }
}

/// The field that a description read so far gives: none while the name, the
/// example or the type annotation is unset; documentation that never started
/// is empty.
pub open spec fn built(p: Progress) -> Option<FieldModel> {
    match (p.name(), p.example(), p.type_raw()) {
        (Some(name), Some(example), Some(type_raw)) => Some(
            FieldModel {
                name: sanitized_name(name),
                example,
                field_type: type_text(type_raw),
                doc: match p.doc() {
                    Some(doc) => doc,
                    None => Seq::empty(),
                },
            },
        ),
        _ => None,
    }
}

/// The state after one code fragment, which is never scanned for delimiters:
/// it joins the documentation once that has started, and the pending text
/// before that.
pub open spec fn feed_code(p: Progress, code: Seq<char>) -> Progress {
    match p {
        Progress::Name { pending } => Progress::Name { pending: pending + code },
        Progress::Example { name, pending } => Progress::Example { name, pending: pending + code },
        Progress::Type { name, example, pending } => Progress::Type {
            name,
            example,
            pending: pending + code,
        },
        Progress::Separator { name, example, type_raw, pending } => Progress::Separator {
            name,
            example,
            type_raw,
            pending: pending + code,
        },
        Progress::Doc { name, example, type_raw, doc } => Progress::Doc {
            name,
            example,
            type_raw,
            doc: doc + code,
        },
    }
}

#[derive(Debug, Clone, PartialEq, Eq)]
enum Stage {
    Name { pending: String },
    Example { name: String, pending: String },
    Type { name: String, example: String, pending: String },
    Separator { name: String, example: String, type_raw: String, pending: String },
    Doc { name: String, example: String, type_raw: String, doc: String },
}

impl Stage {
    spec fn model(self) -> Progress {
        match self {
            Stage::Name { pending } => Progress::Name { pending: pending@ },
            Stage::Example { name, pending } => Progress::Example {
                name: name@,
                pending: pending@,
            },
            Stage::Type { name, example, pending } => Progress::Type {
                name: name@,
                example: example@,
                pending: pending@,
            },
            Stage::Separator { name, example, type_raw, pending } => Progress::Separator {
                name: name@,
                example: example@,
                type_raw: type_raw@,
                pending: pending@,
            },
            Stage::Doc { name, example, type_raw, doc } => Progress::Doc {
                name: name@,
                example: example@,
                type_raw: type_raw@,
                doc: doc@,
            },
        }
    }

    /// Scans `chars[from..]` as one text fragment.
    fn feed(self, chars: &Vec<char>, from: usize) -> (next: Stage)
        requires
            from <= chars.len(),
        ensures
            next.model() == feed_text(self.model(), chars@.skip(from as int)),
        decreases self.model().remaining(),
    {
        let ghost t = chars@.skip(from as int);
        match self {
            Stage::Name { pending } => {
                let mut pending = pending;
                let colon = find_from(chars, from, ':');
                if colon < chars.len() {
                    append_range(&mut pending, chars, from, colon);
                    proof {
                        assert(chars@.subrange(from as int, colon as int) == t.take(colon - from));
                        assert(chars@.skip(colon + 1) == t.skip(colon - from + 1));
                    }
                    return Stage::Example { name: pending, pending: String::new() }.feed(
                        chars,
                        colon + 1,
                    );
                }
                let paren = find_from(chars, from, '(');
                if paren < chars.len() {
                    append_range(&mut pending, chars, from, paren);
                    proof {
                        assert(chars@.subrange(from as int, paren as int) == t.take(paren - from));
                        assert(chars@.skip(paren + 1) == t.skip(paren - from + 1));
                    }
                    return Stage::Type {
                        name: pending,
                        example: String::new(),
                        pending: String::new(),
                    }.feed(chars, paren + 1);
                }
                append_range(&mut pending, chars, from, chars.len());
                proof {
                    assert(chars@.subrange(from as int, chars.len() as int) == t);
                }
                Stage::Name { pending }
            },
            Stage::Example { name, pending } => {
                let mut pending = pending;
                let paren = find_from(chars, from, '(');
                if paren < chars.len() {
                    append_range(&mut pending, chars, from, paren);
                    proof {
                        assert(chars@.subrange(from as int, paren as int) == t.take(paren - from));
                        assert(chars@.skip(paren + 1) == t.skip(paren - from + 1));
                    }
                    return Stage::Type { name, example: pending, pending: String::new() }.feed(
                        chars,
                        paren + 1,
                    );
                }
                append_range(&mut pending, chars, from, chars.len());
                proof {
                    assert(chars@.subrange(from as int, chars.len() as int) == t);
                }
                Stage::Example { name, pending }
            },
            Stage::Type { name, example, pending } => {
                let mut pending = pending;
                let close = find_from(chars, from, ')');
                if close < chars.len() {
                    append_range(&mut pending, chars, from, close);
                    proof {
                        assert(chars@.subrange(from as int, close as int) == t.take(close - from));
                        assert(chars@.skip(close as int) == t.skip(close - from));
                    }
                    return Stage::Separator {
                        name,
                        example,
                        type_raw: pending,
                        pending: String::new(),
                    }.feed(chars, close);
                }
                append_range(&mut pending, chars, from, chars.len());
                proof {
                    assert(chars@.subrange(from as int, chars.len() as int) == t);
                }
                Stage::Type { name, example, pending }
            },
            Stage::Separator { name, example, type_raw, pending } => {
                let mut pending = pending;
                let dash = find_from(chars, from, '-');
                if dash < chars.len() {
                    let doc = text_of(chars, dash + 1, chars.len());
                    proof {
                        assert(chars@.subrange(dash + 1, chars.len() as int) == t.skip(
                            dash - from + 1,
                        ));
                    }
                    Stage::Doc { name, example, type_raw, doc }
                } else {
                    append_range(&mut pending, chars, from, chars.len());
                    proof {
                        assert(chars@.subrange(from as int, chars.len() as int) == t);
                    }
                    Stage::Separator { name, example, type_raw, pending }
                }
            },
            Stage::Doc { name, example, type_raw, doc } => {
                let mut doc = doc;
                append_range(&mut doc, chars, from, chars.len());
                proof {
                    assert(chars@.subrange(from as int, chars.len() as int) == t);
                }
                Stage::Doc { name, example, type_raw, doc }
            },
        }
    }

    /// Takes one code fragment, unscanned.
    fn feed_verbatim(self, code: &str) -> (next: Stage)
        ensures
            next.model() == feed_code(self.model(), code@),
    {
        match self {
            Stage::Name { pending } => Stage::Name { pending: pending.concat(code) },
            Stage::Example { name, pending } => Stage::Example {
                name,
                pending: pending.concat(code),
            },
            Stage::Type { name, example, pending } => Stage::Type {
                name,
                example,
                pending: pending.concat(code),
            },
            Stage::Separator { name, example, type_raw, pending } => Stage::Separator {
                name,
                example,
                type_raw,
                pending: pending.concat(code),
            },
            Stage::Doc { name, example, type_raw, doc } => Stage::Doc {
                name,
                example,
                type_raw,
                doc: doc.concat(code),
            },
        }
    }
}

/// The accumulator for one field description, fed fragment by fragment.
#[derive(Debug, Clone, PartialEq, Eq)]
pub struct FieldBuilder {
    stage: Stage,
}

impl View for FieldBuilder {
    type V = Progress;

    closed spec fn view(&self) -> Progress {
        self.stage.model()
    }
}

impl FieldBuilder {
    /// A builder that has read nothing.
    pub fn new() -> (b: FieldBuilder)
        ensures
            b@ == (Progress::Name { pending: Seq::empty() }),
    {
        FieldBuilder { stage: Stage::Name { pending: String::new() } }
    }

    /// Takes one inline-code fragment, which is literal content wherever it stands.
    pub fn add_code(&mut self, code: String)
        ensures
            final(self)@ == feed_code(old(self)@, code@),
    {
        let mut stage = Stage::Name { pending: String::new() };
        core::mem::swap(&mut self.stage, &mut stage);
        self.stage = stage.feed_verbatim(code.as_str());
    }

    /// Takes one plain-text fragment and scans it for the delimiters that are
    /// still awaited.
    pub fn add_text(&mut self, text: String)
        ensures
            final(self)@ == feed_text(old(self)@, text@),
    {
        let chars = chars_of(text.as_str());
        assert(chars@.skip(0) == text@);
        let mut stage = Stage::Name { pending: String::new() };
        core::mem::swap(&mut self.stage, &mut stage);
        self.stage = stage.feed(&chars, 0);
    }

    /// The finished field, or `None` while the name, the example or the type
    /// annotation is unset.
    pub fn build(&self) -> (r: Option<Field>)
        ensures
            match r {
                Some(field) => built(self@) == Some(field@),
                None => built(self@) is None,
            },
    {
        match &self.stage {
            Stage::Separator { name, example, type_raw, .. } => Some(
                Field {
                    name: fix_field_name(name.clone()),
                    example: example.clone(),
                    field_type: fix_field_type(type_raw.clone()),
                    doc: String::new(),
                },
            ),
            Stage::Doc { name, example, type_raw, doc } => Some(
                Field {
                    name: fix_field_name(name.clone()),
                    example: example.clone(),
                    field_type: fix_field_type(type_raw.clone()),
                    doc: doc.clone(),
                },
            ),
            _ => None,
        }
    }
}

} // verus!
