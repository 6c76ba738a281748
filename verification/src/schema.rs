//! The schema: the records of a document by name, each with its fields by name.

use crate::field::{Field, FieldModel};
use crate::name_map::{
    has_name, lemma_put_sorted, lemma_put_without, lemma_slot, lookup, put, slot, sorted, NameMap,
};
use crate::text::{squeeze, squeezed};
use vstd::prelude::*;

verus! {

/// The fields of one record, in the order of their names.
pub type FieldsModel = Seq<(Seq<char>, FieldModel)>;

/// The records of a document, in the order of their names.
pub type SchemaModel = Seq<(Seq<char>, FieldsModel)>;

/// Whether the records of `schema`, and the fields of each, ascend strictly by name.
pub open spec fn schema_sorted(schema: SchemaModel) -> bool {
    &&& sorted(schema)
    &&& forall|i: int| 0 <= i < schema.len() ==> sorted(#[trigger] schema[i].1)
}

/// The name under which a record is kept: the section's name without spaces
/// and hyphens.
pub open spec fn record_name(section: Seq<char>) -> Seq<char> {
    squeezed(section)
}

/// `schema` with `field` in the record of the section `section`. The record is
/// made where the schema has none for the name; a field that the record held
/// under the same name is replaced.
pub open spec fn with_field(schema: SchemaModel, section: Seq<char>, field: FieldModel)
    -> SchemaModel {
    let name = record_name(section);
    let fields = match lookup(schema, name) {
        Some(fields) => fields,
        None => Seq::empty(),
    };
    put(schema, name, put(fields, field.name, field))
}

/// A sorted schema stays sorted when a field is added.
pub proof fn lemma_with_field_sorted(schema: SchemaModel, section: Seq<char>, field: FieldModel)
    requires
        schema_sorted(schema),
    ensures
        schema_sorted(with_field(schema, section, field)),
{
    let name = record_name(section);
    let fields = match lookup(schema, name) {
        Some(fields) => fields,
        None => Seq::empty(),
    };
    lemma_slot(schema, name);
    lemma_put_sorted(fields, field.name, field);
    let record = put(fields, field.name, field);
    lemma_put_sorted(schema, name, record);
    let r = put(schema, name, record);
    let p = slot(schema, name);
    assert forall|i: int| 0 <= i < r.len() implies sorted(#[trigger] r[i].1) by {
        if i == p {
        } else if has_name(schema, name) {
            assert(r[i] == schema[i]);
        } else if i < p {
            assert(r[i] == schema[i]);
        } else {
            assert(r[i] == schema[i - 1]);
        }
    }
}

/// One record: its fields by name.
#[derive(Debug, PartialEq, Eq)]
pub struct CodeStruct {
    fields: NameMap<Field>,
}

impl View for CodeStruct {
    type V = FieldsModel;

    closed spec fn view(&self) -> FieldsModel {
        self.fields@
    }
}

impl CodeStruct {
    /// A record without fields.
    pub fn new() -> (s: CodeStruct)
        ensures
            s@ == FieldsModel::empty(),
    {
        CodeStruct { fields: NameMap::new() }
    }

    /// The number of fields.
    pub fn len(&self) -> (n: usize)
        ensures
            n == self@.len(),
    {
        self.fields.len()
    }

    /// The field at place `i` in the order of names, with the name it is held under.
    pub fn field(&self, i: usize) -> (r: (&str, &Field))
        requires
            i < self@.len(),
        ensures
            r.0@ == self@[i as int].0,
            r.1@ == self@[i as int].1,
    {
        self.fields.entry(i)
    }

    /// The field held under `name`.
    pub fn get(&self, name: &str) -> (r: Option<&Field>)
        ensures
            match r {
                Some(field) => lookup(self@, name@) == Some(field@),
                None => lookup(self@, name@) is None,
            },
    {
        self.fields.get(name)
    }

    /// Puts `field` under its name; a field held under that name is replaced.
    fn set(&mut self, field: Field)
        requires
            sorted(old(self)@),
        ensures
            final(self)@ == put(old(self)@, field@.name, field@),
            sorted(final(self)@),
    {
        self.fields.insert(field.name.clone(), field);
    }
}

/// The schema of a document: its records by name.
#[derive(Debug, PartialEq, Eq)]
pub struct Code {
    structs: NameMap<CodeStruct>,
}

impl View for Code {
    type V = SchemaModel;

    closed spec fn view(&self) -> SchemaModel {
        self.structs@
    }
}

impl Code {
    /// The invariant: records and fields ascend strictly by name.
    pub open spec fn wf(&self) -> bool {
        schema_sorted(self@)
    }

    /// A schema without records.
    pub fn new() -> (code: Code)
        ensures
            code@ == SchemaModel::empty(),
            code.wf(),
    {
        Code { structs: NameMap::new() }
    }

    /// The number of records.
    pub fn len(&self) -> (n: usize)
        ensures
            n == self@.len(),
    {
        self.structs.len()
    }

    /// The record at place `i` in the order of names, with its name.
    pub fn record(&self, i: usize) -> (r: (&str, &CodeStruct))
        requires
            i < self@.len(),
        ensures
            r.0@ == self@[i as int].0,
            r.1@ == self@[i as int].1,
    {
        self.structs.entry(i)
    }

    /// The record held under `name`.
    pub fn get(&self, name: &str) -> (r: Option<&CodeStruct>)
        ensures
            match r {
                Some(record) => lookup(self@, name@) == Some(record@),
                None => lookup(self@, name@) is None,
            },
    {
        self.structs.get(name)
    }

    /// Adds `field` to the record of the section `struct_name`.
    pub fn add_struct_field(&mut self, struct_name: String, field: &Field)
        requires
            old(self).wf(),
        ensures
            final(self)@ == with_field(old(self)@, struct_name@, field@),
            final(self).wf(),
    {
        let name = squeeze(struct_name.as_str());
        proof {
            lemma_slot(self@, name@);
            lemma_put_without(self@, name@, put(
                match lookup(self@, name@) {
                    Some(fields) => fields,
                    None => Seq::empty(),
                },
                field@.name,
                field@,
            ));
            lemma_with_field_sorted(self@, struct_name@, field@);
        }
        let mut record = match self.structs.remove(name.as_str()) {
            Some(record) => record,
            None => CodeStruct::new(),
        };
        record.set(field.clone());
        self.structs.insert(name, record);
    }
}

} // verus!
