//! The schema as source text: one struct per record, written by `codegen`.

use crate::field::FieldModel;
use crate::schema::{Code, CodeStruct, FieldsModel, SchemaModel};
use vstd::prelude::*;

verus! {

#[verifier::external_type_specification]
#[verifier::external_body]
pub struct ExStruct(codegen::Struct);

#[verifier::external_type_specification]
#[verifier::external_body]
pub struct ExScope(codegen::Scope);

/// What a struct definition holds: its name, the traits it derives, and its
/// named fields, each with its type.
pub struct StructDecl {
    pub name: Seq<char>,
    pub derives: Seq<Seq<char>>,
    pub fields: Seq<(Seq<char>, Seq<char>)>,
}

/// What a scope holds: its imports, each a path and a type, and its structs.
pub struct ScopeDecl {
    pub imports: Seq<(Seq<char>, Seq<char>)>,
    pub structs: Seq<StructDecl>,
}

/// What a `codegen::Struct` holds that was made by `Struct::new` and filled by
/// `derive` and `field`.
pub uninterp spec fn struct_decl(s: codegen::Struct) -> StructDecl;

/// What a `codegen::Scope` holds that was made by `Scope::new` and filled by
/// `import` and `push_struct`.
pub uninterp spec fn scope_decl(scope: codegen::Scope) -> ScopeDecl;

/// The text that `codegen::Scope::to_string` writes for a scope of imports and
/// structs.
pub uninterp spec fn scope_text(decl: ScopeDecl) -> Seq<char>;

/// `codegen::Struct::new`: a struct definition with the given name, without
/// derives and without fields.
#[verifier::external_body]
fn new_struct(name: &str) -> (s: codegen::Struct)
    ensures
        struct_decl(s) == (StructDecl { name: name@, derives: Seq::empty(), fields: Seq::empty() }),
{
    codegen::Struct::new(name)
}

/// `codegen::Struct::derive`: appends `name` to the traits that the struct
/// derives, and changes nothing else.
#[verifier::external_body]
fn add_derive(s: &mut codegen::Struct, name: &str)
    ensures
        struct_decl(*final(s)) == (StructDecl {
            derives: struct_decl(*old(s)).derives.push(name@),
            ..struct_decl(*old(s))
        }),
{
    s.derive(name);
}

/// `codegen::Struct::field`: appends a named field of type `ty`, and changes
/// nothing else.
#[verifier::external_body]
fn add_field(s: &mut codegen::Struct, name: &str, ty: &str)
    ensures
        struct_decl(*final(s)) == (StructDecl {
            fields: struct_decl(*old(s)).fields.push((name@, ty@)),
            ..struct_decl(*old(s))
        }),
{
    s.field(name, ty);
}

/// `codegen::Scope::new`: a scope without imports and without items.
#[verifier::external_body]
fn new_scope() -> (scope: codegen::Scope)
    ensures
        scope_decl(scope) == (ScopeDecl { imports: Seq::empty(), structs: Seq::empty() }),
{
    codegen::Scope::new()
}

/// `codegen::Scope::import`, for the first import of a scope and a type that
/// holds no `:`: the scope then imports `ty` from `path`. (With a `::` in it
/// the type would be cut there, and an import made twice is kept once.)
#[verifier::external_body]
fn add_import(scope: &mut codegen::Scope, path: &str, ty: &str)
    requires
        scope_decl(*old(scope)).imports.len() == 0,
        !ty@.contains(':'),
    ensures
        scope_decl(*final(scope)) == (ScopeDecl {
            imports: seq![(path@, ty@)],
            ..scope_decl(*old(scope))
        }),
{
    scope.import(path, ty);
}

/// `codegen::Scope::push_struct`: appends the struct to the scope's items, and
/// changes nothing else.
#[verifier::external_body]
fn push_struct(scope: &mut codegen::Scope, item: codegen::Struct)
    ensures
        scope_decl(*final(scope)) == (ScopeDecl {
            structs: scope_decl(*old(scope)).structs.push(struct_decl(item)),
            ..scope_decl(*old(scope))
        }),
{
    scope.push_struct(item);
}

/// `codegen::Scope::to_string`: the text of the scope, which what the scope
/// holds determines.
#[verifier::external_body]
fn scope_to_string(scope: &codegen::Scope) -> (text: String)
    ensures
        text@ == scope_text(scope_decl(*scope)),
{
    scope.to_string()
}

/// The fields of a struct definition for the fields of a record: each under
/// the name it is held under, with its resolved type.
pub open spec fn field_lines(fields: FieldsModel) -> Seq<(Seq<char>, Seq<char>)> {
    fields.map_values(|e: (Seq<char>, FieldModel)| (e.0, e.1.field_type))
}

/// The struct definition for a record: it derives `Debug`, `Serialize` and
/// `Deserialize`, and has the record's fields in the order of their names.
pub open spec fn struct_of(name: Seq<char>, fields: FieldsModel) -> StructDecl {
    StructDecl {
        name,
        derives: seq!["Debug"@, "Serialize"@, "Deserialize"@],
        fields: field_lines(fields),
    }
}

/// The structs of a schema, in the order of the records' names.
pub open spec fn structs_of(schema: SchemaModel) -> Seq<StructDecl> {
    schema.map_values(|e: (Seq<char>, FieldsModel)| struct_of(e.0, e.1))
}

/// The scope for a schema: the import of serde's two traits, then one struct
/// per record.
pub open spec fn scope_of(schema: SchemaModel) -> ScopeDecl {
    ScopeDecl {
        imports: seq![("serde"@, "{Deserialize, Serialize}"@)],
        structs: structs_of(schema),
    }
}

/// The source text for a schema.
pub open spec fn generated(schema: SchemaModel) -> Seq<char> {
    scope_text(scope_of(schema))
}

proof fn lemma_import_has_no_colon()
    ensures
        !"{Deserialize, Serialize}"@.contains(':'),
{
    reveal_strlit("{Deserialize, Serialize}");
}

impl CodeStruct {
    /// The struct definition for this record under the name `name`.
    pub(crate) fn generate(&self, name: &str) -> (s: codegen::Struct)
        ensures
            struct_decl(s) == struct_of(name@, self@),
    {
        let mut s = new_struct(name);
        add_derive(&mut s, "Debug");
        add_derive(&mut s, "Serialize");
        add_derive(&mut s, "Deserialize");
        assert(struct_decl(s).derives =~= seq!["Debug"@, "Serialize"@, "Deserialize"@]);
        let n = self.len();
        let mut i: usize = 0;
        assert(field_lines(self@.take(0)) =~= Seq::empty());
        while i < n
            invariant
                i <= n == self@.len(),
                struct_decl(s) == struct_of(name@, self@.take(i as int)),
            decreases n - i,
        {
            let (field_name, field) = self.field(i);
            add_field(&mut s, field_name, field.field_type.as_str());
            assert(field_lines(self@.take(i + 1)) =~= field_lines(self@.take(i as int)).push(
                (field_name@, field.field_type@),
            ));
            i += 1;
        }
        assert(self@.take(n as int) == self@);
        s
    }
}

impl Code {
    /// The source text for this schema.
    pub fn generate(&self) -> (text: String)
        ensures
            text@ == generated(self@),
    {
        let mut scope = new_scope();
        proof {
            lemma_import_has_no_colon();
        }
        add_import(&mut scope, "serde", "{Deserialize, Serialize}");
        let n = self.len();
        let mut i: usize = 0;
        assert(structs_of(self@.take(0)) =~= Seq::empty());
        while i < n
            invariant
                i <= n == self@.len(),
                scope_decl(scope) == scope_of(self@.take(i as int)),
            decreases n - i,
        {
            let (name, record) = self.record(i);
            push_struct(&mut scope, record.generate(name));
            assert(structs_of(self@.take(i + 1)) =~= structs_of(self@.take(i as int)).push(
                struct_of(name@, record@),
            ));
            i += 1;
        }
        assert(self@.take(n as int) == self@);
        scope_to_string(&scope)
    }
}

} // verus!
