//! Trusted bindings to the tantivy full-text engine.
//!
//! Everything in this module is the boundary between the verified library
//! and the engine: type declarations for the engine's opaque values, a few
//! names for what those values hold, and one small wrapper per engine
//! call.  Each wrapper's contract states only what the engine's source
//! shows; where an engine call panics on some input — a duplicate field
//! name, a handle or address of another index — a `requires` over one of
//! the names excludes that input, and the wrapper that produces the value
//! ensures it.  Nothing here is checked by the verifier.

use vstd::prelude::*;
use tantivy::schema::Value;
use crate::indexer::{doc_ord_pairs, Doc, FieldHandles};

verus! {

#[verifier::external_type_specification]
#[verifier::external_body]
pub struct ExIndex(tantivy::Index);

#[verifier::external_type_specification]
#[verifier::external_body]
pub struct ExIndexReader(tantivy::IndexReader);

#[verifier::external_type_specification]
#[verifier::external_body]
pub struct ExSearcher(tantivy::Searcher);

#[verifier::external_type_specification]
#[verifier::external_body]
pub struct ExSchema(tantivy::schema::Schema);

#[verifier::external_type_specification]
#[verifier::external_body]
pub struct ExSchemaBuilder(tantivy::schema::SchemaBuilder);

#[verifier::external_type_specification]
#[verifier::external_body]
pub struct ExField(tantivy::schema::Field);

#[verifier::external_type_specification]
#[verifier::external_body]
pub struct ExDocument(tantivy::TantivyDocument);

#[verifier::external_type_specification]
#[verifier::external_body]
pub struct ExQueryParser(tantivy::query::QueryParser);

#[verifier::external_type_specification]
#[verifier::external_body]
pub struct ExTantivyError(tantivy::TantivyError);

#[verifier::external_type_specification]
#[verifier::external_body]
pub struct ExQueryParserError(tantivy::query::QueryParserError);

/// The engine's write session.  `tantivy::IndexWriter` itself cannot be
/// declared to the verifier (its type parameter is bounded by an engine
/// trait), so the writer is held opaquely in this handle; the
/// staged-document model below speaks of the handle.
#[verifier::external_body]
pub struct Writer {
    inner: tantivy::IndexWriter,
}

/// A parsed query.  The engine hands parsed queries out as boxed trait
/// objects, which cannot be declared to the verifier, so the box is held
/// opaquely here.
#[verifier::external_body]
pub struct ParsedQuery {
    inner: std::boxed::Box<dyn tantivy::query::Query>,
}

// ---------------------------------------------------------------------
// Names for what the engine's values hold.

/// The names of the fields declared in a schema builder so far, in
/// declaration order.
pub uninterp spec fn builder_fields(b: tantivy::schema::SchemaBuilder) -> Seq<Seq<char>>;

/// The names of a schema's fields, in ordinal order.
pub uninterp spec fn schema_field_names(s: tantivy::schema::Schema) -> Seq<Seq<char>>;

/// The ordinal a field handle wraps.
pub uninterp spec fn field_ord(f: tantivy::schema::Field) -> int;

/// The number of fields of the schema an index was created with.
pub uninterp spec fn index_field_count(ix: tantivy::Index) -> int;

/// The number of fields of the schema behind a reader.
pub uninterp spec fn reader_field_count(r: tantivy::IndexReader) -> int;

/// The number of fields of the schema behind a searcher.
pub uninterp spec fn searcher_field_count(s: tantivy::Searcher) -> int;

/// The number of fields of the schema a query parser was built against.
pub uninterp spec fn parser_field_count(p: tantivy::query::QueryParser) -> int;

/// The parser's default fields all lie within its schema.
pub uninterp spec fn parser_ok(p: tantivy::query::QueryParser) -> bool;

/// Whether the parser accepts the query string.  Parsing is a function of
/// the parser's configuration and the string alone.
pub uninterp spec fn query_parses(p: tantivy::query::QueryParser, q: Seq<char>) -> bool;

/// One past the greatest field ordinal a parsed query mentions.
pub uninterp spec fn query_field_bound(q: ParsedQuery) -> int;

/// Whether the address denotes a document of the searcher's snapshot.
pub uninterp spec fn valid_address(s: tantivy::Searcher, segment: u32, doc: u32) -> bool;

/// How many documents of the searcher's snapshot match the query.
pub uninterp spec fn match_count(s: tantivy::Searcher, q: ParsedQuery) -> int;

/// The documents staged in the write session since its last commit, in
/// order; each document is the sequence of its `(field ordinal, text)`
/// pairs.
pub uninterp spec fn staged_docs(w: Writer) -> Seq<Seq<(int, Seq<char>)>>;

/// The greatest opstamp the write session has handed out so far; for a
/// fresh session, a value below everything it will hand out.  The
/// session's stamp source only ever counts up, so every handed-out stamp
/// strictly exceeds this.
pub uninterp spec fn writer_stamp(w: Writer) -> int;

/// Whether the schema holds a field of the given name.
pub open spec fn schema_has_field(s: tantivy::schema::Schema, name: Seq<char>) -> bool {
    schema_field_names(s).contains(name)
}

/// The handle stands for the schema's field of the given name.
pub open spec fn field_named(
    s: tantivy::schema::Schema,
    f: tantivy::schema::Field,
    name: Seq<char>,
) -> bool {
    &&& 0 <= field_ord(f) < schema_field_names(s).len()
    &&& schema_field_names(s)[field_ord(f)] == name
}

/// The total order on raw score bits that agrees with the numeric order
/// of the scores they encode (for the engine's proper, non-NaN scores).
pub open spec fn score_key(bits: u32) -> int {
    if bits < 0x8000_0000 {
        bits + 0x8000_0000
    } else {
        0xFFFF_FFFFu32 - bits
    }
}

// ---------------------------------------------------------------------
// Wrappers, one per engine call.

/// Relies on `SchemaBuilder::default`: an empty schema builder.
#[verifier::external_body]
pub(crate) fn new_schema_builder() -> (b: tantivy::schema::SchemaBuilder)
    ensures
        builder_fields(b) == Seq::<Seq<char>>::empty(),
{
    tantivy::schema::SchemaBuilder::default()
}

/// Relies on `SchemaBuilder::add_text_field`: declares a text field with
/// the given name, storage flag and indexing treatment, and returns its
/// handle, whose ordinal is the number of fields declared before it.
/// The engine panics on a repeated field name, so a fresh name is
/// required.
#[verifier::external_body]
pub(crate) fn add_text_field(
    b: &mut tantivy::schema::SchemaBuilder,
    name: &str,
    store: bool,
    tokenizer: Option<&String>,
    freqs_and_positions: bool,
) -> (f: tantivy::schema::Field)
    requires
        !builder_fields(*old(b)).contains(name@),
    ensures
        builder_fields(*final(b)) == builder_fields(*old(b)).push(name@),
        field_ord(f) == builder_fields(*old(b)).len(),
{
    let rec = if freqs_and_positions {
        tantivy::schema::IndexRecordOption::WithFreqsAndPositions
    } else {
        tantivy::schema::IndexRecordOption::Basic
    };
    let mut opts = tantivy::schema::TextOptions::default();
    if store {
        opts = opts.set_stored();
    }
    if let Some(tok) = tokenizer {
        let ix = tantivy::schema::TextFieldIndexing::default().set_tokenizer(tok);
        opts = opts.set_indexing_options(ix.set_index_option(rec));
    }
    b.add_text_field(name, opts)
}

/// Relies on `SchemaBuilder::build`: finalizes the schema with the
/// declared fields in declaration order.
#[verifier::external_body]
pub(crate) fn build_schema(b: tantivy::schema::SchemaBuilder) -> (s: tantivy::schema::Schema)
    ensures
        schema_field_names(s) == builder_fields(b),
{
    b.build()
}

/// Relies on `Schema::get_field`: looks a field handle up by name; the
/// returned handle stands for the field of that name.
#[verifier::external_body]
pub(crate) fn get_field(s: &tantivy::schema::Schema, name: &str) -> (r: Option<
    tantivy::schema::Field,
>)
    ensures
        r is Some <==> schema_has_field(*s, name@),
        r matches Some(f) ==> field_named(*s, f, name@),
{
    match s.get_field(name) {
        Ok(f) => Some(f),
        Err(_) => None,
    }
}

/// Relies on `Index::schema`: the schema the index was created with.
#[verifier::external_body]
pub(crate) fn index_schema(ix: &tantivy::Index) -> (s: tantivy::schema::Schema)
    ensures
        schema_field_names(s).len() == index_field_count(*ix),
{
    ix.schema()
}

/// Relies on `Index::reader`: a reader over the current index snapshot,
/// sharing the index's schema.
#[verifier::external_body]
pub(crate) fn index_reader(ix: &tantivy::Index) -> (r: Result<
    tantivy::IndexReader,
    tantivy::TantivyError,
>)
    ensures
        r matches Ok(rd) ==> reader_field_count(rd) == index_field_count(*ix),
{
    ix.reader()
}

/// Relies on `IndexReader::searcher`: a searcher over the reader's
/// snapshot, sharing its schema.
#[verifier::external_body]
pub(crate) fn searcher_of(r: &tantivy::IndexReader) -> (s: tantivy::Searcher)
    ensures
        searcher_field_count(s) == reader_field_count(*r),
{
    r.searcher()
}

/// Relies on `QueryParser::for_index`: a parser that queries the given
/// fields, OR-combined by default.  The default fields must belong to the
/// index's schema; term parsing walks them through the schema, so a
/// foreign handle would make a later parse panic.
#[verifier::external_body]
pub(crate) fn query_parser(
    ix: &tantivy::Index,
    fields: Vec<tantivy::schema::Field>,
) -> (p: tantivy::query::QueryParser)
    requires
        forall|i: int|
            0 <= i < fields@.len() ==> 0 <= field_ord(#[trigger] fields@[i]) < index_field_count(
                *ix,
            ),
    ensures
        parser_ok(p),
        parser_field_count(p) == index_field_count(*ix),
{
    tantivy::query::QueryParser::for_index(ix, fields)
}

/// Relies on `QueryParser::parse_query`: parses the query string against
/// the parser's fields; fails exactly on the strings the parser rejects,
/// be it for malformed syntax or for an unknown field name.  Every field
/// the returned query mentions lies within the parser's schema.
#[verifier::external_body]
pub(crate) fn parse_query(p: &tantivy::query::QueryParser, q: &str) -> (r: Result<
    ParsedQuery,
    tantivy::query::QueryParserError,
>)
    requires
        parser_ok(*p),
    ensures
        r is Ok <==> query_parses(*p, q@),
        r matches Ok(pq) ==> query_field_bound(pq) <= parser_field_count(*p),
{
    match p.parse_query(q) {
        Ok(inner) => Ok(ParsedQuery { inner }),
        Err(e) => Err(e),
    }
}

/// Relies on `Searcher::search` with a `TopDocs` collector ordered by
/// score: the best-scored min(limit, matches) hits come back, scores
/// non-increasing, each hit a document address of this searcher's
/// snapshot.  Each hit is returned as the raw bits of its relevance score
/// with its segment ordinal and document id.  The query must lie within
/// the searcher's schema; scoring walks its fields through the schema, so
/// a foreign query would panic.
#[verifier::external_body]
pub(crate) fn search_top(
    s: &tantivy::Searcher,
    q: &ParsedQuery,
    limit: usize,
) -> (r: Result<Vec<(u32, u32, u32)>, tantivy::TantivyError>)
    requires
        limit >= 1,
        query_field_bound(*q) <= searcher_field_count(*s),
    ensures
        r matches Ok(hits) ==> {
            &&& hits@.len() <= limit
            &&& match_count(*s, *q) >= 0
            &&& hits@.len() == if match_count(*s, *q) >= limit {
                limit as int
            } else {
                match_count(*s, *q)
            }
            &&& forall|i: int|
                0 <= i < hits@.len() - 1 ==> score_key((#[trigger] hits@[i]).0) >= score_key(
                    hits@[i + 1].0,
                )
            &&& forall|i: int|
                0 <= i < hits@.len() ==> valid_address(
                    *s,
                    (#[trigger] hits@[i]).1,
                    hits@[i].2,
                )
        },
{
    let collector = tantivy::collector::TopDocs::with_limit(limit).order_by_score();
    match s.search(&*q.inner, &collector) {
        Ok(hits) => Ok(
            hits.into_iter().map(
                |(score, addr)| (score.to_bits(), addr.segment_ord, addr.doc_id),
            ).collect(),
        ),
        Err(e) => Err(e),
    }
}

/// Relies on `Searcher::doc`: fetches the stored document at the address,
/// which must denote a document of this searcher's snapshot — the store
/// lookup indexes the snapshot's segments.
#[verifier::external_body]
pub(crate) fn fetch_doc(s: &tantivy::Searcher, segment: u32, doc: u32) -> Result<
    tantivy::TantivyDocument,
    tantivy::TantivyError,
>
    requires
        valid_address(*s, segment, doc),
{
    s.doc::<tantivy::TantivyDocument>(tantivy::DocAddress::new(segment, doc))
}

/// Relies on `TantivyDocument::get_first` and `Value::as_str`: the first
/// stored text value of the field, if any.
#[verifier::external_body]
pub(crate) fn doc_first_text(
    d: &tantivy::TantivyDocument,
    f: tantivy::schema::Field,
) -> Option<String> {
    d.get_first(f).and_then(|v| v.as_str()).map(|s| s.to_string())
}

/// Relies on `TantivyError`'s display implementation: the engine error's
/// message.
#[verifier::external_body]
pub(crate) fn error_message(e: &tantivy::TantivyError) -> String {
    format!("{e}")
}

/// Relies on `QueryParserError`'s display implementation: the parse
/// error's message.
#[verifier::external_body]
pub(crate) fn parser_error_message(e: &tantivy::query::QueryParserError) -> String {
    format!("{e}")
}

/// Relies on `Index::writer`: a write session with the given total memory
/// budget; nothing is staged in a fresh session.  Fails when the budget is
/// out of the engine's accepted range or the index lock is taken.
#[verifier::external_body]
pub(crate) fn index_writer(ix: &tantivy::Index, memory_budget: usize) -> (r: Result<
    Writer,
    tantivy::TantivyError,
>)
    ensures
        r matches Ok(w) ==> staged_docs(w) == Seq::<Seq<(int, Seq<char>)>>::empty(),
{
    match ix.writer::<tantivy::TantivyDocument>(memory_budget) {
        Ok(inner) => Ok(Writer { inner }),
        Err(e) => Err(e),
    }
}

/// Relies on `TantivyDocument::new`, `TantivyDocument::add_text` and
/// `IndexWriter::add_document`: stages one document holding the given
/// texts under the handles' fields — the staged pairs carry the handles'
/// ordinals — and returns its opstamp, drawn from the session's
/// monotonically increasing stamper.
#[verifier::external_body]
pub(crate) fn stage_document(w: &mut Writer, h: &FieldHandles, d: &Doc) -> (r: Result<
    u64,
    tantivy::TantivyError,
>)
    ensures
        r matches Ok(stamp) ==> {
            &&& staged_docs(*final(w)) == staged_docs(*old(w)).push(doc_ord_pairs(*h, *d))
            &&& stamp as int > writer_stamp(*old(w))
            &&& writer_stamp(*final(w)) == stamp as int
        },
{
    let mut doc = tantivy::TantivyDocument::new();
    doc.add_text(h.module_field, &d.module_name);
    doc.add_text(h.module_version_field, &d.module_version);
    doc.add_text(h.name_field, &d.name);
    doc.add_text(h.url_field, &d.url);
    doc.add_text(h.tags_field, &d.tags);
    doc.add_text(h.synopsis_field, &d.synopsis);
    doc.add_text(h.syntax_field, &d.syntax);
    doc.add_text(h.description_field, &d.description);
    doc.add_text(h.notes_field, &d.notes);
    w.inner.add_document(doc)
}

/// Relies on `IndexWriter::commit`: publishes all staged documents as one
/// generation and returns its opstamp, drawn after every earlier stamp of
/// the session, so markers rise from commit to commit; after a successful
/// commit nothing is staged.
#[verifier::external_body]
pub(crate) fn commit_writer(w: &mut Writer) -> (r: Result<u64, tantivy::TantivyError>)
    ensures
        r matches Ok(stamp) ==> {
            &&& staged_docs(*final(w)) == Seq::<Seq<(int, Seq<char>)>>::empty()
            &&& stamp as int > writer_stamp(*old(w))
            &&& writer_stamp(*final(w)) == stamp as int
        },
{
    w.inner.commit()
}

} // verus!
