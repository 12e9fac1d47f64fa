//! The indexing pipeline.
//!
//! An `Indexer` owns a single write session against the index.  `update`
//! turns a `Cmdlet` record into a document under the schema — each schema
//! field mapped to the matching record attribute, with the tags joined by
//! single spaces — and stages it; `commit` publishes all staged documents
//! as one generation.  `update` hands the engine's per-call outcome back
//! (the batching engine reports staging failures again at commit time),
//! so per-record validation belongs before `update`.

use vstd::prelude::*;
use crate::cmdlet::Cmdlet;
use crate::engine;
use crate::engine::{
    builder_fields, field_named, field_ord, schema_field_names, stage_document, staged_docs,
    writer_stamp, Writer,
};
use crate::error::FindCmdletError;
use crate::schema::{
    field_name, indexing, lemma_table_names_distinct, spec_field_name, stored, table_names,
    tokenizer_name, FieldId, RecordDetail,
};
use crate::tags::{join_spec, join_tags};

verus! {

/// The engine handles of the schema's fields, in the schema's own order.
pub struct FieldHandles {
    pub module_field: tantivy::schema::Field,
    pub module_version_field: tantivy::schema::Field,
    pub name_field: tantivy::schema::Field,
    pub url_field: tantivy::schema::Field,
    pub tags_field: tantivy::schema::Field,
    pub synopsis_field: tantivy::schema::Field,
    pub syntax_field: tantivy::schema::Field,
    pub description_field: tantivy::schema::Field,
    pub notes_field: tantivy::schema::Field,
}

/// Each handle stands for the schema's field of the matching table name.
pub open spec fn handles_match(s: tantivy::schema::Schema, h: FieldHandles) -> bool {
    &&& field_named(s, h.module_field, spec_field_name(FieldId::ModuleName))
    &&& field_named(s, h.module_version_field, spec_field_name(FieldId::ModuleVersion))
    &&& field_named(s, h.name_field, spec_field_name(FieldId::Name))
    &&& field_named(s, h.url_field, spec_field_name(FieldId::Url))
    &&& field_named(s, h.tags_field, spec_field_name(FieldId::Tags))
    &&& field_named(s, h.synopsis_field, spec_field_name(FieldId::Synopsis))
    &&& field_named(s, h.syntax_field, spec_field_name(FieldId::Syntax))
    &&& field_named(s, h.description_field, spec_field_name(FieldId::Description))
    &&& field_named(s, h.notes_field, spec_field_name(FieldId::Notes))
}

/// The handles carry the table's ordinals, in declaration order.
pub open spec fn handles_ordered(h: FieldHandles) -> bool {
    &&& field_ord(h.module_field) == 0
    &&& field_ord(h.module_version_field) == 1
    &&& field_ord(h.name_field) == 2
    &&& field_ord(h.url_field) == 3
    &&& field_ord(h.tags_field) == 4
    &&& field_ord(h.synopsis_field) == 5
    &&& field_ord(h.syntax_field) == 6
    &&& field_ord(h.description_field) == 7
    &&& field_ord(h.notes_field) == 8
}

/// A document ready for staging: one text value per schema field.
pub struct Doc {
    pub module_name: String,
    pub module_version: String,
    pub name: String,
    pub url: String,
    pub tags: String,
    pub synopsis: String,
    pub syntax: String,
    pub description: String,
    pub notes: String,
}

/// The `(field ordinal, text)` pairs of a document staged under the given
/// handles, in the schema's order.
pub open spec fn doc_ord_pairs(h: FieldHandles, d: Doc) -> Seq<(int, Seq<char>)> {
    seq![
        (field_ord(h.module_field), d.module_name@),
        (field_ord(h.module_version_field), d.module_version@),
        (field_ord(h.name_field), d.name@),
        (field_ord(h.url_field), d.url@),
        (field_ord(h.tags_field), d.tags@),
        (field_ord(h.synopsis_field), d.synopsis@),
        (field_ord(h.syntax_field), d.syntax@),
        (field_ord(h.description_field), d.description@),
        (field_ord(h.notes_field), d.notes@),
    ]
}

/// The document that a record maps to, staged under the given handles:
/// each schema field carries the matching record attribute, with the tags
/// joined by single spaces.
pub open spec fn spec_doc_of(h: FieldHandles, c: Cmdlet) -> Seq<(int, Seq<char>)> {
    seq![
        (field_ord(h.module_field), c.module@),
        (field_ord(h.module_version_field), c.module_version@),
        (field_ord(h.name_field), c.name@),
        (field_ord(h.url_field), c.url@),
        (field_ord(h.tags_field), join_spec(c.tags.deep_view())),
        (field_ord(h.synopsis_field), c.synopsis@),
        (field_ord(h.syntax_field), c.syntax@),
        (field_ord(h.description_field), c.description@),
        (field_ord(h.notes_field), c.notes@),
    ]
}

/// Builds the document of a record: each schema field's text is the
/// matching record attribute, with the tags joined by single spaces.
pub fn doc_of_cmdlet(c: &Cmdlet) -> (d: Doc)
    ensures
        d.module_name@ == c.module@,
        d.module_version@ == c.module_version@,
        d.name@ == c.name@,
        d.url@ == c.url@,
        d.tags@ == join_spec(c.tags.deep_view()),
        d.synopsis@ == c.synopsis@,
        d.syntax@ == c.syntax@,
        d.description@ == c.description@,
        d.notes@ == c.notes@,
{
    Doc {
        module_name: c.module.clone(),
        module_version: c.module_version.clone(),
        name: c.name.clone(),
        url: c.url.clone(),
        tags: join_tags(&c.tags),
        synopsis: c.synopsis.clone(),
        syntax: c.syntax.clone(),
        description: c.description.clone(),
        notes: c.notes.clone(),
    }
}

/// Declares one field of the table in the builder.
fn add_table_field(b: &mut tantivy::schema::SchemaBuilder, id: FieldId) -> (f:
    tantivy::schema::Field)
    requires
        !builder_fields(*old(b)).contains(spec_field_name(id)),
    ensures
        builder_fields(*final(b)) == builder_fields(*old(b)).push(spec_field_name(id)),
        field_ord(f) == builder_fields(*old(b)).len(),
{
    let name = field_name(id);
    match indexing(id) {
        Some((tok, rec)) => {
            let tok_name = tokenizer_name(tok);
            let freqs = match rec {
                RecordDetail::WithFreqsAndPositions => true,
                RecordDetail::Basic => false,
            };
            engine::add_text_field(b, name.as_str(), stored(id), Some(&tok_name), freqs)
        },
        Option::None => engine::add_text_field(b, name.as_str(), stored(id), Option::None, false),
    }
}

/// No name of the table stands in a proper prefix of the table.
proof fn lemma_prefix_fresh(i: int)
    requires
        0 <= i < table_names().len(),
    ensures
        !table_names().take(i).contains(table_names()[i]),
{
    lemma_table_names_distinct();
    if table_names().take(i).contains(table_names()[i]) {
        let k = choose|k: int|
            0 <= k < i && #[trigger] table_names().take(i)[k] == table_names()[i];
        assert(table_names()[k] == table_names()[i]);
    }
}

/// Builds the engine schema from the field table and returns it with the
/// handles of all nine fields: the schema's field names are exactly the
/// table's names in order, and each handle stands for its named field.
pub fn build_engine_schema() -> (r: (tantivy::schema::Schema, FieldHandles))
    ensures
        schema_field_names(r.0) == table_names(),
        handles_ordered(r.1),
        handles_match(r.0, r.1),
{
    let mut b = engine::new_schema_builder();
    proof {
        assert(builder_fields(b) =~= table_names().take(0));
        lemma_prefix_fresh(0);
    }
    let module_field = add_table_field(&mut b, FieldId::ModuleName);
    proof {
        assert(builder_fields(b) =~= table_names().take(1));
        lemma_prefix_fresh(1);
    }
    let module_version_field = add_table_field(&mut b, FieldId::ModuleVersion);
    proof {
        assert(builder_fields(b) =~= table_names().take(2));
        lemma_prefix_fresh(2);
    }
    let name_field = add_table_field(&mut b, FieldId::Name);
    proof {
        assert(builder_fields(b) =~= table_names().take(3));
        lemma_prefix_fresh(3);
    }
    let url_field = add_table_field(&mut b, FieldId::Url);
    proof {
        assert(builder_fields(b) =~= table_names().take(4));
        lemma_prefix_fresh(4);
    }
    let tags_field = add_table_field(&mut b, FieldId::Tags);
    proof {
        assert(builder_fields(b) =~= table_names().take(5));
        lemma_prefix_fresh(5);
    }
    let synopsis_field = add_table_field(&mut b, FieldId::Synopsis);
    proof {
        assert(builder_fields(b) =~= table_names().take(6));
        lemma_prefix_fresh(6);
    }
    let syntax_field = add_table_field(&mut b, FieldId::Syntax);
    proof {
        assert(builder_fields(b) =~= table_names().take(7));
        lemma_prefix_fresh(7);
    }
    let description_field = add_table_field(&mut b, FieldId::Description);
    proof {
        assert(builder_fields(b) =~= table_names().take(8));
        lemma_prefix_fresh(8);
    }
    let notes_field = add_table_field(&mut b, FieldId::Notes);
    proof {
        assert(builder_fields(b) =~= table_names());
    }
    let schema = engine::build_schema(b);
    let h = FieldHandles {
        module_field,
        module_version_field,
        name_field,
        url_field,
        tags_field,
        synopsis_field,
        syntax_field,
        description_field,
        notes_field,
    };
    (schema, h)
}

/// The indexing pipeline: a write session and the schema's field handles.
pub struct Indexer {
    pub writer: Writer,
    pub fields: FieldHandles,
}

impl Indexer {
    /// Opens a write session against the index with the given memory
    /// budget.  The handles must come from the schema the index was
    /// created with.  A fresh session has nothing staged; a failure is
    /// always the engine's, carried in the engine-error variant.
    pub fn new(index: &tantivy::Index, fields: FieldHandles, memory_budget: usize) -> (r: Result<
        Indexer,
        FindCmdletError,
    >)
        ensures
            r matches Ok(ix) ==> staged_docs(ix.writer) == Seq::<Seq<(int, Seq<char>)>>::empty()
                && ix.fields == fields,
            r matches Err(e) ==> e matches FindCmdletError::TantivyError(_),
    {
        match engine::index_writer(index, memory_budget) {
            Ok(writer) => Ok(Indexer { writer, fields }),
            Err(e) => Err(FindCmdletError::TantivyError(engine::error_message(&e))),
        }
    }

    /// Builds the record's document — each schema field mapped to the
    /// matching attribute, tags joined with single spaces — and stages it.
    /// On success the staged sequence grows by exactly that document and
    /// the returned opstamp rises past every earlier one of the session;
    /// a failure is always the engine's, carried in the engine-error
    /// variant.
    pub fn update(&mut self, cmdlet: &Cmdlet) -> (r: Result<u64, FindCmdletError>)
        ensures
            r matches Ok(stamp) ==> {
                &&& staged_docs(final(self).writer) == staged_docs(old(self).writer).push(
                    spec_doc_of(old(self).fields, *cmdlet),
                )
                &&& stamp as int > writer_stamp(old(self).writer)
                &&& writer_stamp(final(self).writer) == stamp as int
            },
            r matches Err(e) ==> e matches FindCmdletError::TantivyError(_),
            final(self).fields == old(self).fields,
    {
        let doc = doc_of_cmdlet(cmdlet);
        proof {
            assert(doc_ord_pairs(self.fields, doc) =~= spec_doc_of(self.fields, *cmdlet));
        }
        match stage_document(&mut self.writer, &self.fields, &doc) {
            Ok(stamp) => Ok(stamp),
            Err(e) => Err(FindCmdletError::TantivyError(engine::error_message(&e))),
        }
    }

    /// Publishes all staged documents as one atomic generation and returns
    /// its generation marker, which rises past every earlier opstamp of
    /// the session — in particular past every earlier commit's marker.
    /// After a successful commit nothing is staged; a failed commit is
    /// always the engine's error, fatal to the batch, surfaced and not
    /// retried here.
    pub fn commit(&mut self) -> (r: Result<u64, FindCmdletError>)
        ensures
            r matches Ok(stamp) ==> {
                &&& staged_docs(final(self).writer) == Seq::<Seq<(int, Seq<char>)>>::empty()
                &&& stamp as int > writer_stamp(old(self).writer)
                &&& writer_stamp(final(self).writer) == stamp as int
            },
            r matches Err(e) ==> e matches FindCmdletError::TantivyError(_),
            final(self).fields == old(self).fields,
    {
        match engine::commit_writer(&mut self.writer) {
            Ok(stamp) => Ok(stamp),
            Err(e) => Err(FindCmdletError::TantivyError(engine::error_message(&e))),
        }
    }
}

} // verus!
