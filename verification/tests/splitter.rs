use find_cmdlet::analyzer::{analyze_pascal, lowercase_tokens, split_tokens, tokenize_simple};
use find_cmdlet::splitter::{split_token, PascalSplitter};
use find_cmdlet::token::Token;

fn analyze_split(text: &str) -> Vec<Token> {
    let simple = tokenize_simple(text);
    split_tokens(&simple)
}

#[test]
fn cmdlet_split() {
    let test_cases: &[(&str, &[(usize, usize, &str)])] = &[
        ("New-VM", &[(0, 3, "New"), (4, 6, "VM")]),
        (
            "Set-HTMLContent",
            &[(0, 3, "Set"), (4, 8, "HTML"), (8, 15, "Content")],
        ),
        (
            "Set-HtmlContent",
            &[(0, 3, "Set"), (4, 8, "Html"), (8, 15, "Content")],
        ),
        ("Set-Html", &[(0, 3, "Set"), (4, 8, "Html")]),
        ("Set-HTML", &[(0, 3, "Set"), (4, 8, "HTML")]),
    ];

    for (cmdlet, res) in test_cases {
        let tokens = analyze_split(cmdlet);
        let mut i = 0;
        for token in &tokens {
            let (expected_offset_from, expected_offset_to, expected_str) = res[i];
            assert_eq!(token.offset_from, expected_offset_from);
            assert_eq!(token.offset_to, expected_offset_to);
            assert_eq!(token.position, i);
            assert_eq!(token.text, expected_str);
            i += 1;
        }
        assert_eq!(i, res.len());
    }
}

#[test]
fn split_single_word_is_identity() {
    let tokens = analyze_split("VM");
    assert_eq!(tokens.len(), 1);
    assert_eq!(tokens[0].text, "VM");
    assert_eq!(tokens[0].offset_from, 0);
    assert_eq!(tokens[0].offset_to, 2);
    assert_eq!(tokens[0].position, 0);
}

#[test]
fn split_token_partitions_offsets() {
    let t = Token {
        text: String::from("HTMLContent"),
        offset_from: 10,
        offset_to: 21,
        position: 5,
        position_length: 1,
    };
    let subs = split_token(&t);
    assert_eq!(subs.len(), 2);
    assert_eq!(subs[0].text, "HTML");
    assert_eq!(subs[0].offset_from, 10);
    assert_eq!(subs[0].offset_to, 14);
    assert_eq!(subs[0].position, 5);
    assert_eq!(subs[1].text, "Content");
    assert_eq!(subs[1].offset_from, 14);
    assert_eq!(subs[1].offset_to, 21);
    assert_eq!(subs[1].position, 6);
    assert_eq!(subs[0].position_length, 1);
    assert_eq!(subs[1].position_length, 1);
}

#[test]
fn split_digit_transitions() {
    let tokens = analyze_split("foo2Bar");
    let texts: Vec<&str> = tokens.iter().map(|t| t.text.as_str()).collect();
    assert_eq!(texts, vec!["foo", "2", "Bar"]);
}

#[test]
fn positions_shift_across_upstream_tokens() {
    // "XmlFoo" splits in two, so the words of "Bar" move past the extra
    // sub-token and positions stay strictly increasing.
    let tokens = analyze_split("XmlFoo Bar");
    let got: Vec<(usize, &str)> = tokens.iter().map(|t| (t.position, t.text.as_str())).collect();
    assert_eq!(got, vec![(0, "Xml"), (1, "Foo"), (2, "Bar")]);
}

#[test]
fn simple_tokenizer_offsets() {
    let tokens = tokenize_simple("Hello, happy tax payer!");
    let got: Vec<(usize, usize, usize, &str)> = tokens
        .iter()
        .map(|t| (t.position, t.offset_from, t.offset_to, t.text.as_str()))
        .collect();
    assert_eq!(
        got,
        vec![
            (0, 0, 5, "Hello"),
            (1, 7, 12, "happy"),
            (2, 13, 16, "tax"),
            (3, 17, 22, "payer"),
        ]
    );
}

#[test]
fn pascal_analyzer_lowercases() {
    let tokens = analyze_pascal("Set-HTMLContent");
    let got: Vec<(usize, usize, usize, &str)> = tokens
        .iter()
        .map(|t| (t.position, t.offset_from, t.offset_to, t.text.as_str()))
        .collect();
    assert_eq!(
        got,
        vec![(0, 0, 3, "set"), (1, 4, 8, "html"), (2, 8, 15, "content")]
    );
}

#[test]
fn lowercase_filter_keeps_offsets() {
    let simple = tokenize_simple("ABC def");
    let lowered = lowercase_tokens(&simple);
    assert_eq!(lowered.len(), 2);
    assert_eq!(lowered[0].text, "abc");
    assert_eq!(lowered[0].offset_from, 0);
    assert_eq!(lowered[0].offset_to, 3);
    assert_eq!(lowered[1].text, "def");
}

#[test]
fn splitter_stream_emits_in_order() {
    let upstream = tokenize_simple("Set-HTMLContent");
    let filter = PascalSplitter;
    let mut stream = filter.transform(upstream);
    let mut texts: Vec<String> = Vec::new();
    while stream.advance() {
        texts.push(stream.token().text.clone());
    }
    assert_eq!(texts, vec!["Set", "HTML", "Content"]);
}

#[test]
fn empty_text_yields_no_tokens() {
    let tokens = analyze_split("");
    assert!(tokens.is_empty());
    let tokens = analyze_split("---");
    assert!(tokens.is_empty());
}

#[test]
fn split_token_multibyte_offsets() {
    // "café2X": the accented letter is two bytes wide; digit transitions
    // cut the token and the byte offsets account for the wide character.
    let t = Token {
        text: String::from("café2X"),
        offset_from: 0,
        offset_to: 7,
        position: 0,
        position_length: 1,
    };
    let subs = split_token(&t);
    let got: Vec<(usize, usize, &str)> = subs
        .iter()
        .map(|s| (s.offset_from, s.offset_to, s.text.as_str()))
        .collect();
    assert_eq!(got, vec![(0, 5, "café"), (5, 6, "2"), (6, 7, "X")]);
}

#[test]
fn stream_ends_on_empty_upstream_token() {
    let upstream = vec![Token {
        text: String::new(),
        offset_from: 0,
        offset_to: 0,
        position: 0,
        position_length: 1,
    }];
    let filter = PascalSplitter;
    let mut stream = filter.transform(upstream);
    assert!(!stream.advance());
    assert!(!stream.advance());
}
