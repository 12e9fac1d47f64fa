//! The query resolver.
//!
//! A raw query string is parsed against all indexed fields; when the query
//! grammar rejects it, the string is sanitized — ASCII characters that are
//! not alphanumeric are dropped, ASCII alphanumerics are lowercased, and
//! everything beyond ASCII passes through — and parsing is retried once.
//! A query whose retry also fails is rejected with a query-syntax error,
//! never silently answered with empty results.  At most thirty top-scored
//! matches come back; a match whose stored document lacks a required field
//! is skipped and counted, not silently dropped.

use vstd::prelude::*;
use crate::chars::{is_token_char, lower_char, to_lower, token_char};
use crate::engine;
use crate::engine::{
    field_named, query_parses, schema_field_names, schema_has_field, score_key, valid_address,
    ParsedQuery,
};
use crate::indexer::{handles_match, FieldHandles};
use crate::schema::{field_name, spec_field_name, FieldId};
use crate::tags::{split_tags, split_tags_spec, trim_spec, trim_str};

verus! {

/// What can go wrong while resolving a query.
#[derive(Debug)]
pub enum SearchError {
    /// The engine failed; carries its message.
    Tantivy(String),
    /// Both parse attempts failed; carries the parser's message.
    TantivyQuery(String),
    /// A required stored field was missing from a matched document.
    MissingValue,
}

impl SearchError {
    /// The human-readable message of the error.
    pub open spec fn spec_message(self) -> Seq<char> {
        match self {
            SearchError::Tantivy(m) => m@,
            SearchError::TantivyQuery(m) => m@,
            SearchError::MissingValue => "none error"@,
        }
    }

    /// Renders the human-readable message of the error.
    pub fn message(&self) -> (r: String)
        ensures
            r@ == self.spec_message(),
    {
        match self {
            SearchError::Tantivy(m) => m.clone(),
            SearchError::TantivyQuery(m) => m.clone(),
            SearchError::MissingValue => String::from_str("none error"),
        }
    }
}

/// One ranked search result, read from a stored document.
#[derive(Debug)]
pub struct CmdletResult {
    pub module_name: String,
    pub module_version: String,
    pub name: String,
    pub url: String,
    pub tags: Vec<String>,
    pub synopsis: String,
    pub syntax: String,
    /// The IEEE-754 bits of the engine's relevance score; `score_key`
    /// orders them as the scores themselves.
    pub score_bits: u32,
}

/// The outcome of a query: the ranked results, and how many matched
/// documents were skipped for missing a required stored field.
#[derive(Debug)]
pub struct SearchOutcome {
    pub results: Vec<CmdletResult>,
    pub skipped: usize,
}

/// The sanitized form of one character: an ASCII character survives only
/// as a lowercased alphanumeric, anything beyond ASCII passes through.
pub open spec fn sanitize_char(c: char) -> Seq<char> {
    if (c as u32) < 128 {
        if is_token_char(c) {
            seq![lower_char(c)]
        } else {
            Seq::empty()
        }
    } else {
        seq![c]
    }
}

/// The sanitized form of a query string.
pub open spec fn sanitize_spec(s: Seq<char>) -> Seq<char>
    decreases s.len(),
{
    if s.len() == 0 {
        Seq::empty()
    } else {
        sanitize_char(s[0]) + sanitize_spec(s.drop_first())
    }
}

proof fn lemma_sanitize_concat(a: Seq<char>, b: Seq<char>)
    ensures
        sanitize_spec(a + b) =~= sanitize_spec(a) + sanitize_spec(b),
    decreases a.len(),
{
    if a.len() == 0 {
        assert(a + b =~= b);
        assert(sanitize_spec(a) =~= Seq::<char>::empty());
    } else {
        assert((a + b)[0] == a[0]);
        assert((a + b).drop_first() =~= a.drop_first() + b);
        lemma_sanitize_concat(a.drop_first(), b);
        assert(sanitize_spec(a) =~= sanitize_char(a[0]) + sanitize_spec(a.drop_first()));
    }
}

/// Sanitizes a query string: drops every ASCII character that is not
/// alphanumeric, lowercases the remaining ASCII alphanumerics, and passes
/// all characters beyond ASCII through unchanged.
pub fn sanitize_query(text: &str) -> (r: String)
    ensures
        r@ == sanitize_spec(text@),
{
    let ghost s = text@;
    let n = text.unicode_len();
    let mut r = String::new();
    let mut i: usize = 0;
    proof {
        assert(s.take(0) =~= Seq::<char>::empty());
    }
    while i < n
        invariant
            i <= n,
            n == s.len(),
            text@ == s,
            r@ == sanitize_spec(s.take(i as int)),
        decreases n - i,
    {
        let c = text.get_char(i);
        let ghost old_r = r@;
        if (c as u32) < 128 {
            if token_char(c) {
                crate::chars::push_char(&mut r, to_lower(c));
            }
        } else {
            crate::chars::push_char(&mut r, c);
        }
        i += 1;
        proof {
            assert(s.take(i as int) =~= s.take(i as int - 1) + seq![s[i as int - 1]]);
            lemma_sanitize_concat(s.take(i as int - 1), seq![s[i as int - 1]]);
            assert(seq![s[i as int - 1]].drop_first() =~= Seq::<char>::empty());
            assert(seq![s[i as int - 1]][0] == s[i as int - 1]);
            assert(sanitize_spec(Seq::<char>::empty()) =~= Seq::<char>::empty());
            assert(sanitize_spec(seq![s[i as int - 1]]) =~= sanitize_char(s[i as int - 1])
                + Seq::<char>::empty());
            assert(sanitize_spec(seq![s[i as int - 1]]) =~= sanitize_char(s[i as int - 1]));
            assert(r@ =~= old_r + sanitize_char(s[i as int - 1]));
        }
    }
    proof {
        assert(s.take(n as int) =~= s);
    }
    r
}

/// A serving schema holds every field of the field table.
pub open spec fn schema_complete(s: tantivy::schema::Schema) -> bool {
    &&& schema_has_field(s, spec_field_name(FieldId::ModuleName))
    &&& schema_has_field(s, spec_field_name(FieldId::ModuleVersion))
    &&& schema_has_field(s, spec_field_name(FieldId::Name))
    &&& schema_has_field(s, spec_field_name(FieldId::Url))
    &&& schema_has_field(s, spec_field_name(FieldId::Tags))
    &&& schema_has_field(s, spec_field_name(FieldId::Synopsis))
    &&& schema_has_field(s, spec_field_name(FieldId::Syntax))
    &&& schema_has_field(s, spec_field_name(FieldId::Description))
    &&& schema_has_field(s, spec_field_name(FieldId::Notes))
}

/// Looks one field of the table up in a serving schema.
fn resolve_field(s: &tantivy::schema::Schema, id: FieldId) -> (r: Option<tantivy::schema::Field>)
    ensures
        r is Some <==> schema_has_field(*s, spec_field_name(id)),
        r matches Some(f) ==> field_named(*s, f, spec_field_name(id)),
{
    let name = field_name(id);
    engine::get_field(s, name.as_str())
}

/// Resolves every field of the table in a serving schema, returning the
/// handles — each standing for its named field — and, separately, exactly
/// the handles of the seven indexed fields, in the table's order, for the
/// query parser; the stored-only fields are never handed to the parser.
/// Fails exactly when a field name is absent — an index built with a
/// different schema, which is fatal for serving.
pub fn resolve_search_fields(s: &tantivy::schema::Schema) -> (r: Result<
    (FieldHandles, Vec<tantivy::schema::Field>),
    SearchError,
>)
    ensures
        r is Ok <==> schema_complete(*s),
        r matches Ok(fi) ==> handles_match(*s, fi.0) && fi.1@ == seq![
            fi.0.module_field,
            fi.0.name_field,
            fi.0.tags_field,
            fi.0.synopsis_field,
            fi.0.syntax_field,
            fi.0.description_field,
            fi.0.notes_field,
        ],
        r is Err ==> r matches Err(SearchError::Tantivy(_)),
{
    let module_field = match resolve_field(s, FieldId::ModuleName) {
        Some(f) => f,
        Option::None => {
            return Err(SearchError::Tantivy(String::from_str(
                "could not find module name in index",
            )));
        },
    };
    let module_version_field = match resolve_field(s, FieldId::ModuleVersion) {
        Some(f) => f,
        Option::None => {
            return Err(SearchError::Tantivy(String::from_str(
                "could not find module version in index",
            )));
        },
    };
    let name_field = match resolve_field(s, FieldId::Name) {
        Some(f) => f,
        Option::None => {
            return Err(SearchError::Tantivy(String::from_str("could not find name in index")));
        },
    };
    let url_field = match resolve_field(s, FieldId::Url) {
        Some(f) => f,
        Option::None => {
            return Err(SearchError::Tantivy(String::from_str("could not find url in index")));
        },
    };
    let tags_field = match resolve_field(s, FieldId::Tags) {
        Some(f) => f,
        Option::None => {
            return Err(SearchError::Tantivy(String::from_str("could not find tags in index")));
        },
    };
    let synopsis_field = match resolve_field(s, FieldId::Synopsis) {
        Some(f) => f,
        Option::None => {
            return Err(SearchError::Tantivy(String::from_str(
                "could not find synopsis in index",
            )));
        },
    };
    let syntax_field = match resolve_field(s, FieldId::Syntax) {
        Some(f) => f,
        Option::None => {
            return Err(SearchError::Tantivy(String::from_str(
                "could not find syntax in index",
            )));
        },
    };
    let description_field = match resolve_field(s, FieldId::Description) {
        Some(f) => f,
        Option::None => {
            return Err(SearchError::Tantivy(String::from_str(
                "could not find description in index",
            )));
        },
    };
    let notes_field = match resolve_field(s, FieldId::Notes) {
        Some(f) => f,
        Option::None => {
            return Err(SearchError::Tantivy(String::from_str(
                "could not find notes in index",
            )));
        },
    };
    let mut indexed: Vec<tantivy::schema::Field> = Vec::new();
    indexed.push(module_field);
    indexed.push(name_field);
    indexed.push(tags_field);
    indexed.push(synopsis_field);
    indexed.push(syntax_field);
    indexed.push(description_field);
    indexed.push(notes_field);
    let handles = FieldHandles {
        module_field,
        module_version_field,
        name_field,
        url_field,
        tags_field,
        synopsis_field,
        syntax_field,
        description_field,
        notes_field,
    };
    proof {
        assert(indexed@ =~= seq![
            handles.module_field,
            handles.name_field,
            handles.tags_field,
            handles.synopsis_field,
            handles.syntax_field,
            handles.description_field,
            handles.notes_field,
        ]);
    }
    Ok((handles, indexed))
}

/// Parses the query string; when the grammar rejects it, sanitizes it and
/// retries once.  Fails exactly when both attempts fail, with the parser's
/// message — a rejected query, never an empty answer.  The parser must be
/// sound for its schema, as `query_parser` returns it; the parsed query
/// then stays within that schema.
pub fn resolve_query(parser: &tantivy::query::QueryParser, query_str: &str) -> (r: Result<
    ParsedQuery,
    SearchError,
>)
    requires
        engine::parser_ok(*parser),
    ensures
        r is Ok <==> query_parses(*parser, query_str@) || query_parses(
            *parser,
            sanitize_spec(query_str@),
        ),
        r matches Ok(q) ==> engine::query_field_bound(q) <= engine::parser_field_count(*parser),
        r is Err ==> r matches Err(SearchError::TantivyQuery(_)),
{
    match engine::parse_query(parser, query_str) {
        Ok(q) => Ok(q),
        Err(_) => {
            let cleaned = sanitize_query(query_str);
            match engine::parse_query(parser, cleaned.as_str()) {
                Ok(q) => Ok(q),
                Err(e) => Err(SearchError::TantivyQuery(engine::parser_error_message(&e))),
            }
        },
    }
}

/// Assembles one result record from the stored field values of a matched
/// document.  Succeeds exactly when every required stored value is
/// present; every text field, the url included, is trimmed, and the tag
/// list is reconstructed from the stored tags string.
pub fn make_result(
    module_name: Option<String>,
    module_version: Option<String>,
    name: Option<String>,
    url: Option<String>,
    tags: Option<String>,
    synopsis: Option<String>,
    syntax: Option<String>,
    score_bits: u32,
) -> (r: Result<CmdletResult, SearchError>)
    ensures
        r is Ok <==> module_name is Some && module_version is Some && name is Some && url is Some
            && tags is Some && synopsis is Some && syntax is Some,
        r matches Ok(cr) ==> {
            &&& cr.module_name@ == trim_spec(module_name->0@)
            &&& cr.module_version@ == trim_spec(module_version->0@)
            &&& cr.name@ == trim_spec(name->0@)
            &&& cr.url@ == trim_spec(url->0@)
            &&& cr.tags.deep_view() == split_tags_spec(tags->0@, 0)
            &&& cr.synopsis@ == trim_spec(synopsis->0@)
            &&& cr.syntax@ == trim_spec(syntax->0@)
            &&& cr.score_bits == score_bits
        },
        r is Err ==> r matches Err(SearchError::MissingValue),
{
    let module_name = match module_name {
        Some(v) => v,
        Option::None => { return Err(SearchError::MissingValue) },
    };
    let module_version = match module_version {
        Some(v) => v,
        Option::None => { return Err(SearchError::MissingValue) },
    };
    let name = match name {
        Some(v) => v,
        Option::None => { return Err(SearchError::MissingValue) },
    };
    let url = match url {
        Some(v) => v,
        Option::None => { return Err(SearchError::MissingValue) },
    };
    let tags = match tags {
        Some(v) => v,
        Option::None => { return Err(SearchError::MissingValue) },
    };
    let synopsis = match synopsis {
        Some(v) => v,
        Option::None => { return Err(SearchError::MissingValue) },
    };
    let syntax = match syntax {
        Some(v) => v,
        Option::None => { return Err(SearchError::MissingValue) },
    };
    Ok(CmdletResult {
        module_name: trim_str(module_name.as_str()),
        module_version: trim_str(module_version.as_str()),
        name: trim_str(name.as_str()),
        url: trim_str(url.as_str()),
        tags: split_tags(tags.as_str()),
        synopsis: trim_str(synopsis.as_str()),
        syntax: trim_str(syntax.as_str()),
        score_bits,
    })
}

/// The results stand in non-increasing score order.
pub open spec fn scores_sorted(rs: Seq<CmdletResult>) -> bool {
    forall|a: int|
        0 <= a < rs.len() - 1 ==> score_key((#[trigger] rs[a]).score_bits) >= score_key(
            rs[a + 1].score_bits,
        )
}

/// In an adjacent-sorted hit list, any earlier hit scores at least any
/// later one.
proof fn lemma_hits_pair(hits: Seq<(u32, u32, u32)>, a: int, b: int)
    requires
        forall|i: int|
            0 <= i < hits.len() - 1 ==> score_key((#[trigger] hits[i]).0) >= score_key(
                hits[i + 1].0,
            ),
        0 <= a <= b < hits.len(),
    ensures
        score_key(hits[a].0) >= score_key(hits[b].0),
    decreases b - a,
{
    if a < b {
        lemma_hits_pair(hits, a + 1, b);
    }
}

/// Resolves a raw query string against the index and returns the ranked
/// results: parse with the sanitize-and-retry strategy, search with the
/// fixed cap of thirty results, fetch each match's stored fields and
/// assemble the records, skipping and counting documents with a missing
/// stored field — a missing stored field never aborts the query, so the
/// outcome is never the missing-value error.  The results keep the
/// engine's non-increasing score order.
pub fn search_index(index: &tantivy::Index, query_str: &str) -> (r: Result<
    SearchOutcome,
    SearchError,
>)
    ensures
        r matches Ok(out) ==> {
            &&& out.results@.len() + out.skipped as int <= 30
            &&& scores_sorted(out.results@)
        },
        r matches Err(e) ==> e matches SearchError::Tantivy(_) || e matches
            SearchError::TantivyQuery(_),
{
    let schema = engine::index_schema(index);
    let (fields, indexed) = match resolve_search_fields(&schema) {
        Ok(fi) => fi,
        Err(e) => { return Err(e) },
    };
    let reader = match engine::index_reader(index) {
        Ok(rd) => rd,
        Err(e) => { return Err(SearchError::Tantivy(engine::error_message(&e))) },
    };
    let searcher = engine::searcher_of(&reader);
    proof {
        assert forall|i: int| 0 <= i < indexed@.len() implies 0 <= engine::field_ord(
            #[trigger] indexed@[i],
        ) < engine::index_field_count(*index) by {
            assert(indexed@.len() == 7);
        }
    }
    let parser = engine::query_parser(index, indexed);
    let query = match resolve_query(&parser, query_str) {
        Ok(q) => q,
        Err(e) => { return Err(e) },
    };
    let hits = match engine::search_top(&searcher, &query, 30) {
        Ok(h) => h,
        Err(e) => { return Err(SearchError::Tantivy(engine::error_message(&e))) },
    };
    let mut results: Vec<CmdletResult> = Vec::new();
    let mut skipped: usize = 0;
    let mut i: usize = 0;
    while i < hits.len()
        invariant
            hits@.len() <= 30,
            i <= hits@.len(),
            results@.len() + skipped <= i,
            scores_sorted(results@),
            forall|k: int|
                0 <= k < hits@.len() - 1 ==> score_key((#[trigger] hits@[k]).0) >= score_key(
                    hits@[k + 1].0,
                ),
            forall|k: int|
                0 <= k < hits@.len() ==> valid_address(
                    searcher,
                    (#[trigger] hits@[k]).1,
                    hits@[k].2,
                ),
            results@.len() > 0 && i < hits@.len() ==> score_key(
                results@[results@.len() - 1].score_bits,
            ) >= score_key(hits@[i as int].0),
        decreases hits@.len() - i,
    {
        let ghost old_results = results@;
        let (score_bits, segment, doc_id) = hits[i];
        match engine::fetch_doc(&searcher, segment, doc_id) {
            Ok(doc) => {
                let module_name = engine::doc_first_text(&doc, fields.module_field);
                let module_version = engine::doc_first_text(&doc, fields.module_version_field);
                let name = engine::doc_first_text(&doc, fields.name_field);
                let url = engine::doc_first_text(&doc, fields.url_field);
                let tags = engine::doc_first_text(&doc, fields.tags_field);
                let synopsis = engine::doc_first_text(&doc, fields.synopsis_field);
                let syntax = engine::doc_first_text(&doc, fields.syntax_field);
                match make_result(
                    module_name,
                    module_version,
                    name,
                    url,
                    tags,
                    synopsis,
                    syntax,
                    score_bits,
                ) {
                    Ok(cr) => results.push(cr),
                    Err(_) => skipped = skipped + 1,
                }
            },
            Err(_) => skipped = skipped + 1,
        }
        i += 1;
        proof {
            if results@.len() > old_results.len() {
                assert(results@[results@.len() - 1].score_bits == hits@[i as int - 1].0);
            }
            if results@.len() > 0 && i < hits@.len() {
                if results@.len() > old_results.len() || old_results.len() > 0 {
                    lemma_hits_pair(hits@, i as int - 1, i as int);
                }
                assert(score_key(results@[results@.len() - 1].score_bits) >= score_key(
                    hits@[i as int].0,
                ));
            }
        }
    }
    Ok(SearchOutcome { results, skipped })
}

} // verus!