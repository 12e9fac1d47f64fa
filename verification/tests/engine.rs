use find_cmdlet::cmdlet::Cmdlet;
use find_cmdlet::indexer::{build_engine_schema, Indexer};
use find_cmdlet::search::{search_index, SearchError};
use tantivy::tokenizer::{
    LowerCaser, SimpleTokenizer, TextAnalyzer, Token, TokenFilter, TokenStream, Tokenizer,
};

/// The library's compound-identifier splitter, adapted to the engine's
/// token-filter interface for registration under the `pascal` name.
#[derive(Clone)]
struct PascalFilter;

impl TokenFilter for PascalFilter {
    type Tokenizer<T: Tokenizer> = PascalTokenizer<T>;

    fn transform<T: Tokenizer>(self, tokenizer: T) -> PascalTokenizer<T> {
        PascalTokenizer { inner: tokenizer }
    }
}

#[derive(Clone)]
struct PascalTokenizer<T> {
    inner: T,
}

impl<T: Tokenizer> Tokenizer for PascalTokenizer<T> {
    type TokenStream<'a> = PascalStream;

    fn token_stream<'a>(&'a mut self, text: &'a str) -> PascalStream {
        let mut upstream = self.inner.token_stream(text);
        let mut collected: Vec<find_cmdlet::token::Token> = Vec::new();
        while upstream.advance() {
            let t = upstream.token();
            collected.push(find_cmdlet::token::Token {
                text: t.text.clone(),
                offset_from: t.offset_from,
                offset_to: t.offset_to,
                position: t.position,
                position_length: t.position_length,
            });
        }
        // The library's stream checks each upstream token itself and ends
        // safely on one it cannot take, so no precondition falls on this
        // adapter.
        let filter = find_cmdlet::splitter::PascalSplitter;
        let mut stream = filter.transform(collected);
        let mut split: Vec<find_cmdlet::token::Token> = Vec::new();
        while stream.advance() {
            split.push(stream.token().duplicate());
        }
        PascalStream {
            out: split,
            next: 0,
            current: Token::default(),
        }
    }
}

struct PascalStream {
    out: Vec<find_cmdlet::token::Token>,
    next: usize,
    current: Token,
}

impl TokenStream for PascalStream {
    fn advance(&mut self) -> bool {
        if self.next >= self.out.len() {
            return false;
        }
        let t = &self.out[self.next];
        self.current.text.clear();
        self.current.text.push_str(&t.text);
        self.current.offset_from = t.offset_from;
        self.current.offset_to = t.offset_to;
        self.current.position = t.position;
        self.current.position_length = t.position_length;
        self.next += 1;
        true
    }

    fn token(&self) -> &Token {
        &self.current
    }

    fn token_mut(&mut self) -> &mut Token {
        &mut self.current
    }
}

fn register_pascal(index: &tantivy::Index) {
    let analyzer = TextAnalyzer::builder(SimpleTokenizer::default())
        .filter(PascalFilter)
        .filter(LowerCaser)
        .build();
    index.tokenizers().register("pascal", analyzer);
}

fn ram_index() -> (tantivy::Index, find_cmdlet::indexer::FieldHandles) {
    let (schema, handles) = build_engine_schema();
    let index = tantivy::Index::create_in_ram(schema);
    register_pascal(&index);
    (index, handles)
}

fn record(module: &str, name: &str, synopsis: &str, tags: Vec<&str>) -> Cmdlet {
    Cmdlet {
        module: String::from(module),
        module_version: String::from("1.0.0"),
        name: String::from(name),
        url: String::from("https://example.test/help"),
        tags: tags.into_iter().map(String::from).collect(),
        synopsis: String::from(synopsis),
        syntax: String::from(""),
        description: String::from(""),
        notes: String::from(""),
    }
}

#[test]
fn commit_makes_documents_searchable() {
    let (index, handles) = ram_index();
    let mut indexer = Indexer::new(&index, handles, 50_000_000).unwrap();

    let records = vec![
        record("DemoModule", "Get-Widget", "Gets a widget.", vec!["widgets"]),
        record("DemoModule", "Set-Widget", "Sets a widget.", vec!["widgets"]),
        record("DemoModule", "New-VM", "Creates a machine.", vec!["vm"]),
    ];
    let malformed = record("DemoModule", "", "No name here.", vec![]);

    for r in &records {
        assert!(r.validate());
        indexer.update(r).unwrap();
    }
    // The malformed record fails validation and is never staged; it must
    // not affect the indexing of the others.
    assert!(!malformed.validate());

    let generation = indexer.commit().unwrap();
    let outcome = search_index(&index, "DemoModule").unwrap();
    assert_eq!(outcome.results.len(), 3);
    assert_eq!(outcome.skipped, 0);

    // A later commit's generation marker rises.
    let next = record("DemoModule", "Remove-Widget", "Removes a widget.", vec![]);
    indexer.update(&next).unwrap();
    let generation2 = indexer.commit().unwrap();
    assert!(generation2 > generation);
    let outcome2 = search_index(&index, "DemoModule").unwrap();
    assert_eq!(outcome2.results.len(), 4);
}

#[test]
fn pascal_field_matches_sub_words() {
    let (index, handles) = ram_index();
    let mut indexer = Indexer::new(&index, handles, 50_000_000).unwrap();
    indexer
        .update(&record("DemoModule", "Set-HTMLContent", "Sets html.", vec![]))
        .unwrap();
    indexer.commit().unwrap();

    // The compound name is reachable by its sub-words, lowercased.
    let outcome = search_index(&index, "name:html").unwrap();
    assert_eq!(outcome.results.len(), 1);
    assert_eq!(outcome.results[0].name, "Set-HTMLContent");
    assert_eq!(outcome.results[0].module_name, "DemoModule");
    assert_eq!(outcome.results[0].url, "https://example.test/help");

    let outcome = search_index(&index, "name:content").unwrap();
    assert_eq!(outcome.results.len(), 1);
}

#[test]
fn result_cap_and_score_order() {
    let (index, handles) = ram_index();
    let mut indexer = Indexer::new(&index, handles, 50_000_000).unwrap();
    for i in 0..35 {
        let name = format!("Get-Thing{i}");
        let r = record("CapModule", &name, "A capped synopsis.", vec!["capped"]);
        indexer.update(&r).unwrap();
    }
    indexer.commit().unwrap();

    let outcome = search_index(&index, "CapModule").unwrap();
    assert_eq!(outcome.results.len(), 30);
    let scores: Vec<f32> = outcome
        .results
        .iter()
        .map(|r| f32::from_bits(r.score_bits))
        .collect();
    for pair in scores.windows(2) {
        assert!(pair[0] >= pair[1]);
    }
}

#[test]
fn query_fallback_sanitizes_punctuation() {
    let (index, handles) = ram_index();
    let mut indexer = Indexer::new(&index, handles, 50_000_000).unwrap();
    indexer
        .update(&record("DemoModule", "Get-Widget", "Gets a widget.", vec![]))
        .unwrap();
    indexer.commit().unwrap();

    // "AND" alone is rejected by the query grammar; the sanitized retry
    // lowercases it into an ordinary term.
    let outcome = search_index(&index, "AND").unwrap();
    assert_eq!(outcome.results.len(), 0);

    // Pure punctuation must not panic: the sanitized retry either
    // succeeds or the query is cleanly rejected as a syntax error.
    match search_index(&index, "!!! :::") {
        Ok(outcome) => assert_eq!(outcome.results.len(), 0),
        Err(e) => assert!(matches!(e, SearchError::TantivyQuery(_))),
    }

    // A query that matches after sanitizing still finds its document.
    let outcome = search_index(&index, "widget!!").unwrap();
    assert_eq!(outcome.results.len(), 1);
}

#[test]
fn tags_round_trip_through_index() {
    let (index, handles) = ram_index();
    let mut indexer = Indexer::new(&index, handles, 50_000_000).unwrap();
    indexer
        .update(&record(
            "DemoModule",
            "Get-Widget",
            "Gets a widget.",
            vec!["alpha", "beta"],
        ))
        .unwrap();
    indexer.commit().unwrap();

    let outcome = search_index(&index, "widget").unwrap();
    assert_eq!(outcome.results.len(), 1);
    assert_eq!(
        outcome.results[0].tags,
        vec![String::from("alpha"), String::from("beta")]
    );
    assert_eq!(outcome.results[0].synopsis, "Gets a widget.");
}

#[test]
fn mismatched_schema_is_fatal() {
    // An index built with a different schema: resolving the expected
    // fields must fail, marking the index unusable for serving.
    let mut builder = tantivy::schema::SchemaBuilder::default();
    builder.add_text_field("something_else", tantivy::schema::TEXT);
    let index = tantivy::Index::create_in_ram(builder.build());
    let err = search_index(&index, "anything").unwrap_err();
    assert!(matches!(err, SearchError::Tantivy(_)));
}
