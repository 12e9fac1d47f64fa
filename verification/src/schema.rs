//! The document schema shared by the indexing pipeline and the query
//! resolver.
//!
//! Field identities are fixed here once; both sides resolve the same named
//! fields from the same table.  A serving index whose schema lacks one of
//! these names was built with a different schema, which is a fatal
//! configuration error, not a per-document failure.

use vstd::prelude::*;

verus! {

/// The fields of a cmdlet document.
#[derive(Clone, Copy, PartialEq, Eq, Structural, Debug)]
pub enum FieldId {
    ModuleName,
    ModuleVersion,
    Name,
    Url,
    Tags,
    Synopsis,
    Syntax,
    Description,
    Notes,
}

/// The analyzers a field's text can run through before indexing.
#[derive(Clone, Copy, PartialEq, Eq, Structural, Debug)]
pub enum TokenizerKind {
    /// The engine's English-stemming analyzer.
    LanguageStemming,
    /// The compound-identifier analyzer: simple tokenization, the
    /// `PascalSplitter`, then lowercasing.
    Pascal,
}

/// How much the index records about an indexed field's terms.
#[derive(Clone, Copy, PartialEq, Eq, Structural, Debug)]
pub enum RecordDetail {
    /// Presence only.
    Basic,
    /// Term frequency and positions, for scoring and phrase proximity.
    WithFreqsAndPositions,
}

/// The name under which a field stands in the engine schema.
pub open spec fn spec_field_name(id: FieldId) -> Seq<char> {
    match id {
        FieldId::ModuleName => "module_name"@,
        FieldId::ModuleVersion => "module_version"@,
        FieldId::Name => "name"@,
        FieldId::Url => "url"@,
        FieldId::Tags => "tags"@,
        FieldId::Synopsis => "synopsis"@,
        FieldId::Syntax => "syntax"@,
        FieldId::Description => "description"@,
        FieldId::Notes => "notes"@,
    }
}

/// Whether the field's value is stored for retrieval.
pub open spec fn field_stored(id: FieldId) -> bool {
    match id {
        FieldId::ModuleName => true,
        FieldId::ModuleVersion => true,
        FieldId::Name => true,
        FieldId::Url => true,
        FieldId::Tags => true,
        FieldId::Synopsis => true,
        FieldId::Syntax => true,
        FieldId::Description => false,
        FieldId::Notes => false,
    }
}

/// The indexing treatment of the field: the tokenizer and the record
/// detail, or nothing for a stored-only field.
pub open spec fn field_indexing(id: FieldId) -> Option<(TokenizerKind, RecordDetail)> {
    match id {
        FieldId::ModuleName => Some((
            TokenizerKind::LanguageStemming,
            RecordDetail::WithFreqsAndPositions,
        )),
        FieldId::ModuleVersion => None,
        FieldId::Name => Some((TokenizerKind::Pascal, RecordDetail::Basic)),
        FieldId::Url => None,
        FieldId::Tags => Some((
            TokenizerKind::LanguageStemming,
            RecordDetail::WithFreqsAndPositions,
        )),
        FieldId::Synopsis => Some((
            TokenizerKind::LanguageStemming,
            RecordDetail::WithFreqsAndPositions,
        )),
        FieldId::Syntax => Some((
            TokenizerKind::LanguageStemming,
            RecordDetail::WithFreqsAndPositions,
        )),
        FieldId::Description => Some((
            TokenizerKind::LanguageStemming,
            RecordDetail::WithFreqsAndPositions,
        )),
        FieldId::Notes => Some((
            TokenizerKind::LanguageStemming,
            RecordDetail::WithFreqsAndPositions,
        )),
    }
}

/// Whether the field is indexed for search.
pub open spec fn field_indexed(id: FieldId) -> bool {
    field_indexing(id) is Some
}

/// All fields of the schema, in declaration order.
pub open spec fn all_fields() -> Seq<FieldId> {
    seq![
        FieldId::ModuleName,
        FieldId::ModuleVersion,
        FieldId::Name,
        FieldId::Url,
        FieldId::Tags,
        FieldId::Synopsis,
        FieldId::Syntax,
        FieldId::Description,
        FieldId::Notes,
    ]
}

/// The schema's field names, in declaration order.
pub open spec fn table_names() -> Seq<Seq<char>> {
    seq![
        spec_field_name(FieldId::ModuleName),
        spec_field_name(FieldId::ModuleVersion),
        spec_field_name(FieldId::Name),
        spec_field_name(FieldId::Url),
        spec_field_name(FieldId::Tags),
        spec_field_name(FieldId::Synopsis),
        spec_field_name(FieldId::Syntax),
        spec_field_name(FieldId::Description),
        spec_field_name(FieldId::Notes),
    ]
}

/// No two fields of the table share a name.
pub proof fn lemma_table_names_distinct()
    ensures
        forall|i: int, j: int|
            0 <= i < j < table_names().len() ==> table_names()[i] != table_names()[j],
{
    reveal_strlit("module_name");
    reveal_strlit("module_version");
    reveal_strlit("name");
    reveal_strlit("url");
    reveal_strlit("tags");
    reveal_strlit("synopsis");
    reveal_strlit("syntax");
    reveal_strlit("description");
    reveal_strlit("notes");
    assert forall|i: int, j: int|
        0 <= i < j < table_names().len() implies table_names()[i] != table_names()[j] by {
        let a = table_names()[i];
        let b = table_names()[j];
        assert(a.len() != b.len() || a[0] != b[0]);
    }
}

/// The fields of the schema, in declaration order.
pub fn schema_fields() -> (r: Vec<FieldId>)
    ensures
        r@ == all_fields(),
{
    let mut r: Vec<FieldId> = Vec::new();
    r.push(FieldId::ModuleName);
    r.push(FieldId::ModuleVersion);
    r.push(FieldId::Name);
    r.push(FieldId::Url);
    r.push(FieldId::Tags);
    r.push(FieldId::Synopsis);
    r.push(FieldId::Syntax);
    r.push(FieldId::Description);
    r.push(FieldId::Notes);
    proof {
        assert(r@ =~= all_fields());
    }
    r
}

/// The field's name in the engine schema.
pub fn field_name(id: FieldId) -> (r: String)
    ensures
        r@ == spec_field_name(id),
{
    match id {
        FieldId::ModuleName => String::from_str("module_name"),
        FieldId::ModuleVersion => String::from_str("module_version"),
        FieldId::Name => String::from_str("name"),
        FieldId::Url => String::from_str("url"),
        FieldId::Tags => String::from_str("tags"),
        FieldId::Synopsis => String::from_str("synopsis"),
        FieldId::Syntax => String::from_str("syntax"),
        FieldId::Description => String::from_str("description"),
        FieldId::Notes => String::from_str("notes"),
    }
}

/// Whether the field's value is stored for retrieval.
pub fn stored(id: FieldId) -> (r: bool)
    ensures
        r == field_stored(id),
{
    match id {
        FieldId::ModuleName => true,
        FieldId::ModuleVersion => true,
        FieldId::Name => true,
        FieldId::Url => true,
        FieldId::Tags => true,
        FieldId::Synopsis => true,
        FieldId::Syntax => true,
        FieldId::Description => false,
        FieldId::Notes => false,
    }
}

/// The indexing treatment of the field.
pub fn indexing(id: FieldId) -> (r: Option<(TokenizerKind, RecordDetail)>)
    ensures
        r == field_indexing(id),
{
    match id {
        FieldId::ModuleName => Some((
            TokenizerKind::LanguageStemming,
            RecordDetail::WithFreqsAndPositions,
        )),
        FieldId::ModuleVersion => None,
        FieldId::Name => Some((TokenizerKind::Pascal, RecordDetail::Basic)),
        FieldId::Url => None,
        FieldId::Tags => Some((
            TokenizerKind::LanguageStemming,
            RecordDetail::WithFreqsAndPositions,
        )),
        FieldId::Synopsis => Some((
            TokenizerKind::LanguageStemming,
            RecordDetail::WithFreqsAndPositions,
        )),
        FieldId::Syntax => Some((
            TokenizerKind::LanguageStemming,
            RecordDetail::WithFreqsAndPositions,
        )),
        FieldId::Description => Some((
            TokenizerKind::LanguageStemming,
            RecordDetail::WithFreqsAndPositions,
        )),
        FieldId::Notes => Some((
            TokenizerKind::LanguageStemming,
            RecordDetail::WithFreqsAndPositions,
        )),
    }
}

/// The registered name of an analyzer.
pub open spec fn spec_tokenizer_name(k: TokenizerKind) -> Seq<char> {
    match k {
        TokenizerKind::LanguageStemming => "en_stem"@,
        TokenizerKind::Pascal => "pascal"@,
    }
}

/// The registered name of an analyzer.
pub fn tokenizer_name(k: TokenizerKind) -> (r: String)
    ensures
        r@ == spec_tokenizer_name(k),
{
    match k {
        TokenizerKind::LanguageStemming => String::from_str("en_stem"),
        TokenizerKind::Pascal => String::from_str("pascal"),
    }
}

} // verus!
